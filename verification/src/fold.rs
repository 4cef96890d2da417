//! Processing a sequence element by element, in order, stopping at the
//! first element that reports an error. The element that failed keeps what
//! was done to it before the failure; the elements after it are untouched.
use vstd::prelude::*;

verus! {

/// Applies `f` to the elements of `s` in order until one of them reports an
/// error: the sequence after that processing, and the error, if any.
pub open spec fn fold_steps<A, E>(s: Seq<A>, f: spec_fn(A) -> (A, Option<E>)) -> (
    Seq<A>,
    Option<E>,
)
    decreases s.len(),
{
    if s.len() == 0 {
        (s, None)
    } else {
        let (x, e) = f(s[0]);
        if e is Some {
            (seq![x] + s.drop_first(), e)
        } else {
            let (rest, e2) = fold_steps(s.drop_first(), f);
            (seq![x] + rest, e2)
        }
    }
}

/// `cur` is `orig` with its first `i` elements processed by `f`, none of
/// which reported an error.
pub open spec fn fold_progress<A, E>(
    orig: Seq<A>,
    cur: Seq<A>,
    f: spec_fn(A) -> (A, Option<E>),
    i: int,
) -> bool {
    &&& cur.len() == orig.len()
    &&& 0 <= i <= orig.len()
    &&& forall|k: int| 0 <= k < i ==> (#[trigger] f(orig[k])).1 is None
    &&& forall|k: int| 0 <= k < i ==> cur[k] == (#[trigger] f(orig[k])).0
    &&& forall|k: int| i <= k < orig.len() ==> #[trigger] cur[k] == orig[k]
}

/// When the first `i` elements report no error, the fold is their results
/// followed by the fold of the rest.
pub proof fn lemma_fold_prefix<A, E>(s: Seq<A>, f: spec_fn(A) -> (A, Option<E>), i: int)
    requires
        0 <= i <= s.len(),
        forall|k: int| 0 <= k < i ==> (#[trigger] f(s[k])).1 is None,
    ensures
        fold_steps(s, f) == (
            Seq::new(i as nat, |k: int| f(s[k]).0) + fold_steps(s.skip(i), f).0,
            fold_steps(s.skip(i), f).1,
        ),
    decreases i,
{
    if i == 0 {
        assert(s.skip(0) =~= s);
        assert(Seq::new(0, |k: int| f(s[k]).0) + fold_steps(s, f).0 =~= fold_steps(s, f).0);
    } else {
        let t = s.drop_first();
        assert forall|k: int| 0 <= k < i - 1 implies (#[trigger] f(t[k])).1 is None by {
            assert(t[k] == s[k + 1]);
            assert(f(s[k + 1]).1 is None);
        }
        lemma_fold_prefix(t, f, i - 1);
        assert(t.skip(i - 1) =~= s.skip(i));
        assert(f(s[0]).1 is None);
        assert(seq![f(s[0]).0] + Seq::new((i - 1) as nat, |k: int| f(t[k]).0) =~= Seq::new(
            i as nat,
            |k: int| f(s[k]).0,
        ));
        assert(seq![f(s[0]).0] + (Seq::new((i - 1) as nat, |k: int| f(t[k]).0) + fold_steps(
            t.skip(i - 1),
            f,
        ).0) =~= Seq::new(i as nat, |k: int| f(s[k]).0) + fold_steps(s.skip(i), f).0);
    }
}

/// A fold that went through every element without an error.
pub proof fn lemma_fold_done<A, E>(orig: Seq<A>, cur: Seq<A>, f: spec_fn(A) -> (A, Option<E>))
    requires
        fold_progress(orig, cur, f, orig.len() as int),
    ensures
        fold_steps(orig, f) == (cur, None::<E>),
{
    lemma_fold_prefix(orig, f, orig.len() as int);
    let rest = orig.skip(orig.len() as int);
    assert(rest.len() == 0);
    assert(fold_steps(rest, f) == (rest, None::<E>));
    assert(Seq::new(orig.len(), |k: int| f(orig[k]).0) + rest =~= cur);
}

/// A fold whose element `i` reported an error after the first `i` went well.
pub proof fn lemma_fold_fail<A, E>(
    orig: Seq<A>,
    cur: Seq<A>,
    f: spec_fn(A) -> (A, Option<E>),
    i: int,
)
    requires
        fold_progress(orig, cur, f, i),
        i < orig.len(),
        f(orig[i]).1 is Some,
    ensures
        fold_steps(orig, f) == (cur.update(i, f(orig[i]).0), f(orig[i]).1),
{
    lemma_fold_prefix(orig, f, i);
    let rest = orig.skip(i);
    assert(rest[0] == orig[i]);
    assert(fold_steps(rest, f) == (seq![f(orig[i]).0] + rest.drop_first(), f(orig[i]).1));
    assert(Seq::new(i as nat, |k: int| f(orig[k]).0) + (seq![f(orig[i]).0] + rest.drop_first())
        =~= cur.update(i, f(orig[i]).0));
}

/// Processing element `i` without an error moves the progress on by one.
pub proof fn lemma_fold_next<A, E>(
    orig: Seq<A>,
    cur: Seq<A>,
    f: spec_fn(A) -> (A, Option<E>),
    i: int,
)
    requires
        fold_progress(orig, cur, f, i),
        i < orig.len(),
        f(orig[i]).1 is None,
    ensures
        fold_progress(orig, cur.update(i, f(orig[i]).0), f, i + 1),
{
    let n = cur.update(i, f(orig[i]).0);
    assert forall|k: int| 0 <= k < i + 1 implies (#[trigger] f(orig[k])).1 is None by {}
    assert forall|k: int| 0 <= k < i + 1 implies n[k] == (#[trigger] f(orig[k])).0 by {}
}


/// Like [`fold_steps`], with a state threaded through the steps: each step
/// sees the state left by the one before it.
pub open spec fn fold_state<A, S, E>(s: Seq<A>, st: S, f: spec_fn(A, S) -> (A, S, Option<E>)) -> (
    Seq<A>,
    S,
    Option<E>,
)
    decreases s.len(),
{
    if s.len() == 0 {
        (s, st, None)
    } else {
        let (pre, st1, e1) = fold_state(s.drop_last(), st, f);
        if e1 is Some {
            (pre.push(s.last()), st1, e1)
        } else {
            let (x, st2, e2) = f(s.last(), st1);
            (pre.push(x), st2, e2)
        }
    }
}

/// A stateful fold keeps the length of the sequence.
pub proof fn lemma_fold_state_len<A, S, E>(
    s: Seq<A>,
    st: S,
    f: spec_fn(A, S) -> (A, S, Option<E>),
)
    ensures
        fold_state(s, st, f).0.len() == s.len(),
    decreases s.len(),
{
    if s.len() > 0 {
        lemma_fold_state_len(s.drop_last(), st, f);
    }
}

/// Once a stateful fold has failed, further elements pass through
/// untouched and the state and error stay.
pub proof fn lemma_fold_state_failed<A, S, E>(
    s: Seq<A>,
    t: Seq<A>,
    st: S,
    f: spec_fn(A, S) -> (A, S, Option<E>),
)
    requires
        fold_state(s, st, f).2 is Some,
    ensures
        fold_state(s + t, st, f) == (
            fold_state(s, st, f).0 + t,
            fold_state(s, st, f).1,
            fold_state(s, st, f).2,
        ),
    decreases t.len(),
{
    if t.len() == 0 {
        assert(s + t =~= s);
        assert(fold_state(s, st, f).0 + t =~= fold_state(s, st, f).0);
    } else {
        lemma_fold_state_failed(s, t.drop_last(), st, f);
        assert((s + t).drop_last() =~= s + t.drop_last());
        assert((s + t).last() == t.last());
        assert((fold_state(s, st, f).0 + t.drop_last()).push(t.last()) =~= fold_state(s, st, f).0
            + t);
    }
}

/// `cur` and `st_now` are what the first `i` steps of a stateful fold over
/// `orig` produced, without an error; the rest of `cur` is untouched.
pub open spec fn fold_state_progress<A, S, E>(
    orig: Seq<A>,
    cur: Seq<A>,
    st0: S,
    st_now: S,
    f: spec_fn(A, S) -> (A, S, Option<E>),
    i: int,
) -> bool {
    &&& cur.len() == orig.len()
    &&& 0 <= i <= orig.len()
    &&& fold_state(orig.take(i), st0, f) == (cur.take(i), st_now, None::<E>)
    &&& forall|k: int| i <= k < orig.len() ==> #[trigger] cur[k] == orig[k]
}

/// The stateful fold before any step.
pub proof fn lemma_fold_state_start<A, S, E>(orig: Seq<A>, st0: S, f: spec_fn(A, S) -> (A, S, Option<E>))
    ensures
        fold_state_progress(orig, orig, st0, st0, f, 0),
{
    assert(orig.take(0) =~= Seq::<A>::empty());
}

/// Element `i` processed without an error.
pub proof fn lemma_fold_state_next<A, S, E>(
    orig: Seq<A>,
    cur: Seq<A>,
    st0: S,
    st_now: S,
    f: spec_fn(A, S) -> (A, S, Option<E>),
    i: int,
)
    requires
        fold_state_progress(orig, cur, st0, st_now, f, i),
        i < orig.len(),
        f(orig[i], st_now).2 is None,
    ensures
        fold_state_progress(
            orig,
            cur.update(i, f(orig[i], st_now).0),
            st0,
            f(orig[i], st_now).1,
            f,
            i + 1,
        ),
{
    let n = cur.update(i, f(orig[i], st_now).0);
    assert(orig.take(i + 1).drop_last() =~= orig.take(i));
    assert(orig.take(i + 1).last() == orig[i]);
    assert(cur.take(i).push(f(orig[i], st_now).0) =~= n.take(i + 1));
}

/// Element `i` failed after the first `i` went well.
pub proof fn lemma_fold_state_fail<A, S, E>(
    orig: Seq<A>,
    cur: Seq<A>,
    st0: S,
    st_now: S,
    f: spec_fn(A, S) -> (A, S, Option<E>),
    i: int,
)
    requires
        fold_state_progress(orig, cur, st0, st_now, f, i),
        i < orig.len(),
        f(orig[i], st_now).2 is Some,
    ensures
        fold_state(orig, st0, f) == (
            cur.update(i, f(orig[i], st_now).0),
            f(orig[i], st_now).1,
            f(orig[i], st_now).2,
        ),
{
    let pre = orig.take(i + 1);
    assert(pre.drop_last() =~= orig.take(i));
    assert(pre.last() == orig[i]);
    lemma_fold_state_failed(pre, orig.skip(i + 1), st0, f);
    assert(pre + orig.skip(i + 1) =~= orig);
    assert(cur.take(i).push(f(orig[i], st_now).0) + orig.skip(i + 1) =~= cur.update(
        i,
        f(orig[i], st_now).0,
    ));
}

/// All elements processed without an error.
pub proof fn lemma_fold_state_done<A, S, E>(
    orig: Seq<A>,
    cur: Seq<A>,
    st0: S,
    st_now: S,
    f: spec_fn(A, S) -> (A, S, Option<E>),
)
    requires
        fold_state_progress(orig, cur, st0, st_now, f, orig.len() as int),
    ensures
        fold_state(orig, st0, f) == (cur, st_now, None::<E>),
{
    assert(orig.take(orig.len() as int) =~= orig);
    assert(cur.take(orig.len() as int) =~= cur);
}


/// A fold without an error processed every element.
pub proof fn lemma_fold_ok<A, E>(s: Seq<A>, f: spec_fn(A) -> (A, Option<E>))
    requires
        fold_steps(s, f).1 is None,
    ensures
        fold_steps(s, f).0.len() == s.len(),
        forall|i: int| 0 <= i < s.len() ==> (#[trigger] f(s[i])).1 is None,
        forall|i: int| 0 <= i < s.len() ==> fold_steps(s, f).0[i] == (#[trigger] f(s[i])).0,
    decreases s.len(),
{
    if s.len() > 0 {
        let t = s.drop_first();
        assert(f(s[0]).1 is None);
        lemma_fold_ok(t, f);
        assert forall|i: int| 0 <= i < s.len() implies (#[trigger] f(s[i])).1 is None by {
            if i > 0 {
                assert(s[i] == t[i - 1]);
            }
        }
        assert forall|i: int| 0 <= i < s.len() implies fold_steps(s, f).0[i] == (#[trigger] f(
            s[i],
        )).0 by {
            if i > 0 {
                assert(s[i] == t[i - 1]);
            }
        }
    }
}

/// A fold whose steps change nothing and fail nowhere changes nothing.
pub proof fn lemma_fold_identity<A, E>(s: Seq<A>, f: spec_fn(A) -> (A, Option<E>))
    requires
        forall|i: int| 0 <= i < s.len() ==> #[trigger] f(s[i]) == (s[i], None::<E>),
    ensures
        fold_steps(s, f) == (s, None::<E>),
    decreases s.len(),
{
    if s.len() > 0 {
        let t = s.drop_first();
        assert forall|i: int| 0 <= i < t.len() implies #[trigger] f(t[i]) == (t[i], None::<E>) by {
            assert(t[i] == s[i + 1]);
        }
        lemma_fold_identity(t, f);
        assert(f(s[0]) == (s[0], None::<E>));
        assert(seq![s[0]] + t =~= s);
    }
}

/// Folding twice is folding once, where each successful step is stable.
pub proof fn lemma_fold_idempotent<A, E>(s: Seq<A>, f: spec_fn(A) -> (A, Option<E>))
    requires
        fold_steps(s, f).1 is None,
        forall|i: int|
            0 <= i < s.len() && (#[trigger] f(s[i])).1 is None ==> f(f(s[i]).0) == (
                f(s[i]).0,
                None::<E>,
            ),
    ensures
        fold_steps(fold_steps(s, f).0, f) == (fold_steps(s, f).0, None::<E>),
{
    lemma_fold_ok(s, f);
    let r = fold_steps(s, f).0;
    assert forall|i: int| 0 <= i < r.len() implies #[trigger] f(r[i]) == (r[i], None::<E>) by {
        assert(f(s[i]).1 is None);
    }
    lemma_fold_identity(r, f);
}


/// Where every successful step yields an element with property `p`, a
/// stateful fold without an error yields only such elements.
pub proof fn lemma_fold_state_all<A, S, E>(
    s: Seq<A>,
    st: S,
    f: spec_fn(A, S) -> (A, S, Option<E>),
    p: spec_fn(A) -> bool,
)
    requires
        forall|x: A, st2: S| (#[trigger] f(x, st2)).2 is None ==> p(f(x, st2).0),
        fold_state(s, st, f).2 is None,
    ensures
        fold_state(s, st, f).0.len() == s.len(),
        forall|i: int| 0 <= i < s.len() ==> p(#[trigger] fold_state(s, st, f).0[i]),
    decreases s.len(),
{
    if s.len() > 0 {
        let (pre, st1, e1) = fold_state(s.drop_last(), st, f);
        assert(e1 is None);
        lemma_fold_state_all(s.drop_last(), st, f, p);
        let (x, st2, e2) = f(s.last(), st1);
        assert(p(x));
        assert forall|i: int| 0 <= i < s.len() implies p(#[trigger] fold_state(s, st, f).0[i]) by {
            if i < s.len() - 1 {
                assert(fold_state(s, st, f).0[i] == pre[i]);
            }
        }
    }
}


/// Where a stateful fold goes through without an error: a relation that
/// each successful step sets up between an element, its result and the
/// state after it, and that every later change of the state allowed by
/// `keeps` preserves, holds at the end for every element and the final
/// state; and the final state is one that `keeps` allows from the first.
pub proof fn lemma_fold_state_related<A, S, E>(
    s: Seq<A>,
    st: S,
    f: spec_fn(A, S) -> (A, S, Option<E>),
    rel: spec_fn(A, A, S) -> bool,
    keeps: spec_fn(S, S) -> bool,
)
    requires
        forall|x: A, st1: S|
            (#[trigger] f(x, st1)).2 is None ==> rel(x, f(x, st1).0, f(x, st1).1) && keeps(st1, f(x, st1).1),
        forall|x: A, y: A, s1: S, s2: S| #[trigger] rel(x, y, s1) && #[trigger] keeps(s1, s2) ==> rel(x, y, s2),
        forall|a: S, b: S, c: S| #[trigger] keeps(a, b) && #[trigger] keeps(b, c) ==> keeps(a, c),
        forall|a: S| #[trigger] keeps(a, a),
        fold_state(s, st, f).2 is None,
    ensures
        fold_state(s, st, f).0.len() == s.len(),
        keeps(st, fold_state(s, st, f).1),
        forall|i: int| 0 <= i < s.len() ==> rel(s[i], #[trigger] fold_state(s, st, f).0[i], fold_state(s, st, f).1),
    decreases s.len(),
{
    if s.len() > 0 {
        let (pre, st1, e1) = fold_state(s.drop_last(), st, f);
        assert(e1 is None);
        lemma_fold_state_related(s.drop_last(), st, f, rel, keeps);
        let (x, st2, e2) = f(s.last(), st1);
        assert(keeps(st1, st2));
        assert(keeps(st, st2));
        assert forall|i: int| 0 <= i < s.len() implies rel(s[i], #[trigger] fold_state(s, st, f).0[i], fold_state(s, st, f).1) by {
            if i < s.len() - 1 {
                assert(fold_state(s, st, f).0[i] == pre[i]);
                assert(s.drop_last()[i] == s[i]);
                assert(rel(s[i], pre[i], st1));
            }
        }
    }
}

} // verus!
