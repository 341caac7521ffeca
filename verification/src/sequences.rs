//! Facts about sequences.

use vstd::prelude::*;

verus! {

/// What a filter lets through was there before.
pub(crate) proof fn lemma_filter_picks<A>(s: Seq<A>, keep: spec_fn(A) -> bool, i: int)
    requires
        0 <= i < s.filter(keep).len(),
    ensures
        s.contains(s.filter(keep)[i]),
    decreases s.len(),
{
    reveal(Seq::filter);
    if s.len() > 0 {
        let init = s.drop_last();
        if i < init.filter(keep).len() {
            lemma_filter_picks(init, keep, i);
            let k = choose|k: int| 0 <= k < init.len() && init[k] == init.filter(keep)[i];
            assert(s[k] == s.filter(keep)[i]);
        } else {
            assert(s[s.len() - 1] == s.filter(keep)[i]);
        }
    }
}

/// Whether the numbers go up.
pub(crate) open spec fn increasing(s: Seq<int>) -> bool {
    forall|k: int, l: int| 0 <= k < l < s.len() ==> s[k] < s[l]
}

/// A filter keeps the order.
pub(crate) proof fn lemma_filter_keeps_increasing(s: Seq<int>, keep: spec_fn(int) -> bool)
    requires
        increasing(s),
    ensures
        increasing(s.filter(keep)),
    decreases s.len(),
{
    reveal(Seq::filter);
    if s.len() > 0 {
        let init = s.drop_last();
        let kept = init.filter(keep);
        lemma_filter_keeps_increasing(init, keep);
        assert forall|k: int| 0 <= k < kept.len() implies kept[k] < s.last() by {
            lemma_filter_picks(init, keep, k);
            let at = choose|at: int| 0 <= at < init.len() && init[at] == kept[k];
            assert(s[at] == kept[k]);
        }
    }
}

/// There is one way to put numbers in order.
pub(crate) proof fn lemma_increasing_is_unique(a: Seq<int>, b: Seq<int>)
    requires
        increasing(a),
        increasing(b),
        forall|i: int|
            #![trigger a.contains(i)]
            #![trigger b.contains(i)]
            a.contains(i) <==> b.contains(i),
    ensures
        a == b,
    decreases a.len(),
{
    if a.len() == 0 {
        if b.len() > 0 {
            assert(b.contains(b[0]));
            assert(a.contains(b[0]));
        }
        assert(a =~= b);
    } else {
        assert(a.contains(a.last()));
        assert(b.contains(a.last()));
        assert(b.contains(b.last()));
        assert(a.contains(b.last()));
        assert(a.last() == b.last());
        let c = a.drop_last();
        let d = b.drop_last();
        assert forall|i: int|
            #![trigger c.contains(i)]
            #![trigger d.contains(i)]
            c.contains(i) <==> d.contains(i) by {
            if c.contains(i) {
                let k = choose|k: int| 0 <= k < c.len() && c[k] == i;
                assert(a[k] == i && a.contains(i) && b.contains(i));
                let l = choose|l: int| 0 <= l < b.len() && b[l] == i;
                assert(d[l] == i);
            }
            if d.contains(i) {
                let k = choose|k: int| 0 <= k < d.len() && d[k] == i;
                assert(b[k] == i && b.contains(i) && a.contains(i));
                let l = choose|l: int| 0 <= l < a.len() && a[l] == i;
                assert(c[l] == i);
            }
        }
        lemma_increasing_is_unique(c, d);
        assert(a =~= c.push(a.last()));
        assert(b =~= d.push(b.last()));
    }
}

/// A filter makes no duplicates.
pub(crate) proof fn lemma_filter_keeps_distinct<A>(s: Seq<A>, keep: spec_fn(A) -> bool)
    requires
        s.no_duplicates(),
    ensures
        s.filter(keep).no_duplicates(),
    decreases s.len(),
{
    reveal(Seq::filter);
    if s.len() > 0 {
        let init = s.drop_last();
        let kept = init.filter(keep);
        lemma_filter_keeps_distinct(init, keep);
        assert forall|i: int| 0 <= i < kept.len() implies kept[i] != s.last() by {
            lemma_filter_picks(init, keep, i);
            let k = choose|k: int| 0 <= k < init.len() && init[k] == kept[i];
            assert(s[k] == kept[i]);
        }
    }
}

} // verus!
