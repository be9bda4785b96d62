use vstd::prelude::*;

verus! {

/// A ranked entry: a position in some list, and its score.
pub type Hit = (usize, i64);

/// Inserts `x` into a list ranked by falling score, after every entry that
/// scores at least as high.
pub open spec fn insert_desc(x: Hit, s: Seq<Hit>) -> Seq<Hit>
    decreases s.len(),
{
    if s.len() == 0 {
        seq![x]
    } else if s[0].1 < x.1 {
        seq![x] + s
    } else {
        seq![s[0]] + insert_desc(x, s.drop_first())
    }
}

/// The stable ranking of `s` by falling score: entries of equal score keep
/// their order.
pub open spec fn sort_desc(s: Seq<Hit>) -> Seq<Hit>
    decreases s.len(),
{
    if s.len() == 0 {
        Seq::empty()
    } else {
        insert_desc(s.last(), sort_desc(s.drop_last()))
    }
}

pub open spec fn is_desc(s: Seq<Hit>) -> bool {
    forall|i: int, j: int| 0 <= i < j < s.len() ==> s[i].1 >= s[j].1
}

proof fn lemma_insert_at(x: Hit, s: Seq<Hit>, p: int)
    requires
        0 <= p <= s.len(),
        forall|k: int| 0 <= k < p ==> #[trigger] s[k].1 >= x.1,
        p < s.len() ==> s[p].1 < x.1,
    ensures
        s.insert(p, x) == insert_desc(x, s),
    decreases s.len(),
{
    if s.len() == 0 {
        assert(s.insert(p, x) =~= seq![x]);
    } else if s[0].1 < x.1 {
        assert(s.insert(p, x) =~= seq![x] + s);
    } else {
        lemma_insert_at(x, s.drop_first(), p - 1);
        assert(s.insert(p, x) =~= seq![s[0]] + s.drop_first().insert(p - 1, x));
    }
}

proof fn lemma_insert_props(x: Hit, s: Seq<Hit>)
    ensures
        insert_desc(x, s).len() == s.len() + 1,
        is_desc(s) ==> is_desc(insert_desc(x, s)),
        forall|i: int|
            0 <= i < insert_desc(x, s).len() ==> #[trigger] insert_desc(x, s)[i] == x || s.contains(
                insert_desc(x, s)[i],
            ),
        insert_desc(x, s).contains(x),
        forall|i: int| 0 <= i < s.len() ==> insert_desc(x, s).contains(#[trigger] s[i]),
    decreases s.len(),
{
    let r = insert_desc(x, s);
    if s.len() == 0 {
        assert(r[0] == x);
    } else if s[0].1 < x.1 {
        assert(r[0] == x);
        assert forall|i: int| 0 <= i < s.len() implies r.contains(#[trigger] s[i]) by {
            assert(r[i + 1] == s[i]);
        }
        assert forall|i: int| 0 <= i < r.len() implies #[trigger] r[i] == x || s.contains(r[i]) by {
            if i > 0 {
                assert(r[i] == s[i - 1]);
            }
        }
    } else {
        let t = s.drop_first();
        lemma_insert_props(x, t);
        let rt = insert_desc(x, t);
        assert(r =~= seq![s[0]] + rt);
        assert forall|i: int| 0 <= i < r.len() implies #[trigger] r[i] == x || s.contains(r[i]) by {
            if i == 0 {
                assert(s[0] == r[0]);
            } else {
                assert(r[i] == rt[i - 1]);
                if rt[i - 1] != x {
                    let k = choose|k: int| 0 <= k < t.len() && t[k] == rt[i - 1];
                    assert(s[k + 1] == r[i]);
                }
            }
        }
        let kx = choose|k: int| 0 <= k < rt.len() && rt[k] == x;
        assert(r[kx + 1] == x);
        assert forall|i: int| 0 <= i < s.len() implies r.contains(#[trigger] s[i]) by {
            if i == 0 {
                assert(r[0] == s[0]);
            } else {
                assert(t[i - 1] == s[i]);
                let k = choose|k: int| 0 <= k < rt.len() && rt[k] == t[i - 1];
                assert(r[k + 1] == s[i]);
            }
        }
        if is_desc(s) {
            assert(is_desc(t));
            assert forall|i: int, j: int| 0 <= i < j < r.len() implies r[i].1 >= r[j].1 by {
                if i == 0 {
                    assert(r[j] == rt[j - 1]);
                    if rt[j - 1] == x {
                    } else {
                        let k = choose|k: int| 0 <= k < t.len() && t[k] == rt[j - 1];
                        assert(s[k + 1] == t[k]);
                    }
                } else {
                    assert(r[i] == rt[i - 1]);
                    assert(r[j] == rt[j - 1]);
                }
            }
        }
    }
}

/// Facts about a stable ranking: it holds the same number of entries, each
/// taken from the input, in falling order of score.
pub proof fn lemma_sort_props(s: Seq<Hit>)
    ensures
        sort_desc(s).len() == s.len(),
        is_desc(sort_desc(s)),
        forall|i: int| 0 <= i < s.len() ==> #[trigger] s.contains(sort_desc(s)[i]),
    decreases s.len(),
{
    if s.len() > 0 {
        let t = s.drop_last();
        lemma_sort_props(t);
        lemma_insert_props(s.last(), sort_desc(t));
        let r = sort_desc(s);
        assert forall|i: int| 0 <= i < s.len() implies #[trigger] s.contains(r[i]) by {
            if r[i] == s.last() {
                assert(s[s.len() - 1] == r[i]);
            } else {
                let k = choose|k: int| 0 <= k < sort_desc(t).len() && sort_desc(t)[k] == r[i];
                let m = choose|m: int| 0 <= m < t.len() && t[m] == sort_desc(t)[k];
                assert(t.contains(sort_desc(t)[k]));
                assert(s[m] == r[i]);
            }
        }
    }
}

/// Ranks entries by falling score, equal scores keeping their order.
pub fn rank_desc(v: &Vec<Hit>) -> (r: Vec<Hit>)
    ensures
        r@ == sort_desc(v@),
{
    let mut sorted: Vec<Hit> = Vec::new();
    let mut i: usize = 0;
    while i < v.len()
        invariant
            i <= v.len(),
            sorted@ == sort_desc(v@.take(i as int)),
        decreases v.len() - i,
    {
        let x = v[i];
        let mut p: usize = 0;
        while p < sorted.len() && sorted[p].1 >= x.1
            invariant
                p <= sorted.len(),
                forall|k: int| 0 <= k < p ==> #[trigger] sorted[k].1 >= x.1,
            decreases sorted.len() - p,
        {
            p = p + 1;
        }
        proof {
            lemma_insert_at(x, sorted@, p as int);
            let t = v@.take(i as int + 1);
            assert(t.drop_last() =~= v@.take(i as int));
            assert(t.last() == x);
        }
        sorted.insert(p, x);
        i = i + 1;
    }
    assert(v@.take(v.len() as int) =~= v@);
    sorted
}

} // verus!
