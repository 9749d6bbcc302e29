use vstd::prelude::*;

verus! {

/// Filtering a prefix one element longer adds that element exactly when it
/// passes the predicate.
pub proof fn lemma_filter_take_step<A>(s: Seq<A>, p: spec_fn(A) -> bool, i: int)
    requires
        0 <= i < s.len(),
    ensures
        s.take(i + 1).filter(p) == (if p(s[i]) {
            s.take(i).filter(p).push(s[i])
        } else {
            s.take(i).filter(p)
        }),
{
    reveal(Seq::filter);
    assert(s.take(i + 1).drop_last() =~= s.take(i));
    assert(s.take(i + 1).last() == s[i]);
}

/// An element is kept by a filter exactly when it occurs and passes.
pub proof fn lemma_filter_membership<A>(s: Seq<A>, p: spec_fn(A) -> bool, e: A)
    ensures
        s.filter(p).contains(e) <==> (s.contains(e) && p(e)),
    decreases s.len(),
{
    reveal(Seq::filter);
    if s.len() > 0 {
        lemma_filter_membership(s.drop_last(), p, e);
        let sub = s.drop_last().filter(p);
        if s.drop_last().contains(e) {
            let j = choose|j: int| 0 <= j < s.drop_last().len() && s.drop_last()[j] == e;
            assert(s[j] == e);
        }
        if s.contains(e) {
            let j = choose|j: int| 0 <= j < s.len() && s[j] == e;
            if j < s.len() - 1 {
                assert(s.drop_last()[j] == e);
            }
        }
        if p(s.last()) {
            let out = sub.push(s.last());
            if sub.contains(e) {
                let j = choose|j: int| 0 <= j < sub.len() && sub[j] == e;
                assert(out[j] == e);
            }
            if out.contains(e) {
                let j = choose|j: int| 0 <= j < out.len() && out[j] == e;
                if j < sub.len() {
                    assert(sub[j] == e);
                }
            }
            assert(out[sub.len() as int] == s.last());
        }
    }
}

/// Filtering keeps a sequence free of duplicates.
pub proof fn lemma_filter_no_duplicates<A>(s: Seq<A>, p: spec_fn(A) -> bool)
    requires
        s.no_duplicates(),
    ensures
        s.filter(p).no_duplicates(),
    decreases s.len(),
{
    reveal(Seq::filter);
    if s.len() > 0 {
        let d = s.drop_last();
        assert(d.no_duplicates()) by {
            assert forall|i: int, j: int| 0 <= i < d.len() && 0 <= j < d.len() && i != j implies d[i]
                != d[j] by {
                assert(s[i] != s[j]);
            }
        }
        lemma_filter_no_duplicates(d, p);
        if p(s.last()) {
            let sub = d.filter(p);
            lemma_filter_membership(d, p, s.last());
            assert(!d.contains(s.last())) by {
                if d.contains(s.last()) {
                    let j = choose|j: int| 0 <= j < d.len() && d[j] == s.last();
                    assert(s[j] == s[s.len() - 1]);
                }
            }
            let out = sub.push(s.last());
            assert forall|i: int, j: int| 0 <= i < out.len() && 0 <= j < out.len() && i != j implies out[i]
                != out[j] by {
                if i < sub.len() && j < sub.len() {
                    assert(sub[i] != sub[j]);
                } else if i < sub.len() {
                    assert(sub.contains(out[i]));
                } else {
                    assert(sub.contains(out[j]));
                }
            }
        }
    }
}

/// A filter that keeps everything changes nothing.
pub proof fn lemma_filter_all<A>(s: Seq<A>)
    ensures
        s.filter(|x: A| true) == s,
    decreases s.len(),
{
    reveal(Seq::filter);
    if s.len() > 0 {
        lemma_filter_all(s.drop_last());
        assert(s.drop_last().push(s.last()) =~= s);
    }
}

} // verus!
