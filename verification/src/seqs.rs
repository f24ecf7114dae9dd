//! Vectors seen as sequences of the views of their items.

use vstd::prelude::*;

verus! {

broadcast use vstd::seq_lib::group_filter_ensures;

/// The views of the items, in order.
pub open spec fn views<T: View>(s: Seq<T>) -> Seq<T::V> {
    s.map_values(|t: T| t@)
}

pub(crate) proof fn lemma_views_push<T: View>(s: Seq<T>, t: T)
    ensures
        views(s.push(t)) == views(s).push(t@),
{
    assert(views(s.push(t)) =~= views(s).push(t@));
}

pub(crate) proof fn lemma_views_add<T: View>(s: Seq<T>, t: Seq<T>)
    ensures
        views(s + t) == views(s) + views(t),
{
    assert(views(s + t) =~= views(s) + views(t));
}

/// One more item is filtered by appending it where the predicate holds.
pub(crate) proof fn lemma_filter_step<A>(s: Seq<A>, p: spec_fn(A) -> bool, k: int)
    requires
        0 <= k < s.len(),
    ensures
        s.take(k + 1).filter(p) == (if p(s[k]) {
            s.take(k).filter(p).push(s[k])
        } else {
            s.take(k).filter(p)
        }),
{
    reveal(Seq::filter);
    assert(s.take(k + 1).drop_last() =~= s.take(k));
}

/// Keeps the items whose views satisfy `p`, which `keep` decides.
pub(crate) fn retain<T: View, F: Fn(&T) -> bool>(
    v: &mut Vec<T>,
    keep: F,
    Ghost(p): Ghost<spec_fn(T::V) -> bool>,
)
    requires
        forall|t: &T| #[trigger] call_requires(keep, (t,)),
        forall|t: &T, b: bool| #[trigger] call_ensures(keep, (t,), b) ==> b == p(t@),
    ensures
        views(final(v)@) == views(old(v)@).filter(p),
{
    let ghost all = views(v@);
    let ghost mut done: int = 0;
    let mut i: usize = 0;
    assert(all.take(0).filter(p) =~= Seq::<T::V>::empty()) by {
        reveal(Seq::filter);
    }
    assert(views(v@) =~= all.take(0).filter(p) + all.skip(0));
    while i < v.len()
        invariant
            forall|t: &T| #[trigger] call_requires(keep, (t,)),
            forall|t: &T, b: bool| #[trigger] call_ensures(keep, (t,), b) ==> b == p(t@),
            0 <= done <= all.len(),
            i <= v.len(),
            i == all.take(done).filter(p).len(),
            views(v@) == all.take(done).filter(p) + all.skip(done),
        decreases v.len() - i,
    {
        let ghost before = v@;
        assert(views(before)[i as int] == all[done]);
        proof {
            lemma_filter_step(all, p, done);
        }
        if keep(&v[i]) {
            i += 1;
            assert(views(v@) =~= all.take(done + 1).filter(p) + all.skip(done + 1));
        } else {
            let _ = v.remove(i);
            assert(views(v@) =~= views(before).remove(i as int));
            assert(views(v@) =~= all.take(done + 1).filter(p) + all.skip(done + 1));
        }
        proof {
            done = done + 1;
        }
    }
    assert(views(v@).len() == v.len());
    assert(done == all.len());
    assert(all.take(done) =~= all);
    assert(views(v@) =~= all.filter(p));
}

/// The values that `f` makes of the items, in order, without those for which it
/// makes none. On views, `f` is `g`.
pub(crate) fn collect_some<T: View, U: View, F: Fn(&T) -> Option<U>>(
    v: &Vec<T>,
    f: F,
    Ghost(g): Ghost<spec_fn(T::V) -> Option<U::V>>,
) -> (r: Vec<U>)
    requires
        forall|t: &T| #[trigger] call_requires(f, (t,)),
        forall|t: &T, o: Option<U>| #[trigger]
            call_ensures(f, (t,), o) ==> match o {
                Some(u) => g(t@) == Some(u@),
                None => g(t@) is None,
            },
    ensures
        views(r@) == views(v@).filter_map(g),
{
    let mut out: Vec<U> = Vec::new();
    let mut i: usize = 0;
    assert(views(v@).take(0) =~= Seq::<T::V>::empty());
    while i < v.len()
        invariant
            forall|t: &T| #[trigger] call_requires(f, (t,)),
            forall|t: &T, o: Option<U>| #[trigger]
                call_ensures(f, (t,), o) ==> match o {
                    Some(u) => g(t@) == Some(u@),
                    None => g(t@) is None,
                },
            i <= v.len(),
            views(out@) == views(v@).take(i as int).filter_map(g),
        decreases v.len() - i,
    {
        let ghost before = out@;
        proof {
            views(v@).lemma_filter_map_take_succ(g, i as int);
        }
        if let Some(u) = f(&v[i]) {
            out.push(u);
            proof {
                lemma_views_push(before, u);
            }
        }
        i += 1;
        assert(views(out@) =~= views(v@).take(i as int).filter_map(g));
    }
    assert(views(v@).take(i as int) =~= views(v@));
    out
}

} // verus!
