use vstd::prelude::*;
use std::collections::VecDeque;
use crate::idx::{point, IdxValue, Outcome};

verus! {

/// How two paired outcomes are combined into one.
pub trait Combiner<T1, T2, T3> {
    /// The combined outcome of `a` and `b`.
    spec fn combined(&self, a: Outcome<T1>, b: Outcome<T2>) -> Outcome<T3>;

    fn combine(&self, a: &Outcome<T1>, b: &Outcome<T2>) -> (r: Outcome<T3>)
        ensures
            r == self.combined(*a, *b),
    ;
}

/// Logical AND of two boolean outcomes: a failure on either side fails the
/// pair.
pub struct LogicalAnd;

impl Combiner<bool, bool, bool> for LogicalAnd {
    open spec fn combined(&self, a: Outcome<bool>, b: Outcome<bool>) -> Outcome<bool> {
        match (a, b) {
            (Outcome::Success(x), Outcome::Success(y)) => Outcome::Success(x && y),
            _ => Outcome::Failure,
        }
    }

    fn combine(&self, a: &Outcome<bool>, b: &Outcome<bool>) -> (r: Outcome<bool>) {
        match (a, b) {
            (Outcome::Success(x), Outcome::Success(y)) => Outcome::Success(*x && *y),
            _ => Outcome::Failure,
        }
    }
}

/// The sorted merge-join of two queues: equal head classes pair up and
/// emit one point value at the left head's index; otherwise the head with
/// the smaller class is dropped. Stops when either queue is empty and
/// returns what is left of both queues, then the emitted values.
pub open spec fn merge<T1, T2, T3, C: Combiner<T1, T2, T3>>(
    q1: Seq<IdxValue<T1>>,
    q2: Seq<IdxValue<T2>>,
    func: C,
) -> (Seq<IdxValue<T1>>, Seq<IdxValue<T2>>, Seq<IdxValue<T3>>)
    decreases q1.len() + q2.len(),
{
    if q1.len() == 0 || q2.len() == 0 {
        (q1, q2, Seq::empty())
    } else if q1[0].index.class() == q2[0].index.class() {
        let r = merge(q1.drop_first(), q2.drop_first(), func);
        (r.0, r.1, seq![point(q1[0].index, func.combined(q1[0].value, q2[0].value))] + r.2)
    } else if q1[0].index.class() < q2[0].index.class() {
        merge(q1.drop_first(), q2, func)
    } else {
        merge(q1, q2.drop_first(), func)
    }
}

/// What a merge leaves of its inputs are suffixes of them, and at least
/// one of the two is empty; a pair is emitted for each step on equal
/// classes, so no more pairs than the shorter queue holds.
pub proof fn lemma_merge_rest<T1, T2, T3, C: Combiner<T1, T2, T3>>(
    q1: Seq<IdxValue<T1>>,
    q2: Seq<IdxValue<T2>>,
    func: C,
)
    ensures
        ({
            let m = merge(q1, q2, func);
            &&& m.0.len() == 0 || m.1.len() == 0
            &&& m.0.len() <= q1.len() && m.0 == q1.skip(q1.len() - m.0.len())
            &&& m.1.len() <= q2.len() && m.1 == q2.skip(q2.len() - m.1.len())
            &&& m.2.len() <= q1.len() - m.0.len() && m.2.len() <= q2.len() - m.1.len()
        }),
    decreases q1.len() + q2.len(),
{
    if q1.len() == 0 || q2.len() == 0 {
        assert(q1 =~= q1.skip(0));
        assert(q2 =~= q2.skip(0));
    } else if q1[0].index.class() == q2[0].index.class() {
        lemma_merge_rest(q1.drop_first(), q2.drop_first(), func);
        let m = merge(q1, q2, func);
        assert(m.0 =~= q1.skip(q1.len() - m.0.len()));
        assert(m.1 =~= q2.skip(q2.len() - m.1.len()));
    } else if q1[0].index.class() < q2[0].index.class() {
        lemma_merge_rest(q1.drop_first(), q2, func);
        let m = merge(q1, q2, func);
        assert(m.0 =~= q1.skip(q1.len() - m.0.len()));
    } else {
        lemma_merge_rest(q1, q2.drop_first(), func);
        let m = merge(q1, q2, func);
        assert(m.1 =~= q2.skip(q2.len() - m.1.len()));
    }
}

/// Merging is resumable: merging extended queues gives the pairs of the
/// first merge followed by those of merging its leftovers, extended.
pub proof fn lemma_merge_resume<T1, T2, T3, C: Combiner<T1, T2, T3>>(
    a1: Seq<IdxValue<T1>>,
    b1: Seq<IdxValue<T1>>,
    a2: Seq<IdxValue<T2>>,
    b2: Seq<IdxValue<T2>>,
    func: C,
)
    ensures
        ({
            let m = merge(a1, a2, func);
            let n = merge(m.0 + b1, m.1 + b2, func);
            merge(a1 + b1, a2 + b2, func) == (n.0, n.1, m.2 + n.2)
        }),
    decreases a1.len() + a2.len(),
{
    let m = merge(a1, a2, func);
    if a1.len() == 0 || a2.len() == 0 {
        let n = merge(m.0 + b1, m.1 + b2, func);
        assert(m.2 + n.2 =~= n.2);
    } else {
        assert((a1 + b1).drop_first() =~= a1.drop_first() + b1);
        assert((a2 + b2).drop_first() =~= a2.drop_first() + b2);
        assert((a1 + b1)[0] == a1[0]);
        assert((a2 + b2)[0] == a2[0]);
        if a1[0].index.class() == a2[0].index.class() {
            lemma_merge_resume(a1.drop_first(), b1, a2.drop_first(), b2, func);
            let r = merge(a1.drop_first(), a2.drop_first(), func);
            let n = merge(r.0 + b1, r.1 + b2, func);
            let p = seq![point(a1[0].index, func.combined(a1[0].value, a2[0].value))];
            assert(p + (r.2 + n.2) =~= (p + r.2) + n.2);
        } else if a1[0].index.class() < a2[0].index.class() {
            lemma_merge_resume(a1.drop_first(), b1, a2, b2, func);
        } else {
            lemma_merge_resume(a1, b1, a2.drop_first(), b2, func);
        }
    }
}

/// The bucket classes of `q` never step back.
pub open spec fn sorted_by_class<T>(q: Seq<IdxValue<T>>) -> bool {
    forall|i: int, j: int| 0 <= i < j < q.len() ==> q[i].index.class() <= q[j].index.class()
}

/// Each bucket class occurs at most once in `q`, in ascending order.
pub open spec fn strictly_sorted<T>(q: Seq<IdxValue<T>>) -> bool {
    forall|i: int, j: int| 0 <= i < j < q.len() ==> q[i].index.class() < q[j].index.class()
}

/// The pair that joining `q1[i]` with `q2[j]` emits.
pub open spec fn paired<T1, T2, T3, C: Combiner<T1, T2, T3>>(
    q1: Seq<IdxValue<T1>>,
    q2: Seq<IdxValue<T2>>,
    func: C,
    i: int,
    j: int,
) -> IdxValue<T3> {
    point(q1[i].index, func.combined(q1[i].value, q2[j].value))
}

/// Every emitted pair joins an element of each queue of the same class.
pub open spec fn join_sound<T1, T2, T3, C: Combiner<T1, T2, T3>>(
    q1: Seq<IdxValue<T1>>,
    q2: Seq<IdxValue<T2>>,
    func: C,
    out: Seq<IdxValue<T3>>,
) -> bool {
    forall|k: int|
        0 <= k < out.len() ==> exists|i: int, j: int|
            0 <= i < q1.len() && 0 <= j < q2.len() && q1[i].index.class() == q2[j].index.class()
                && #[trigger] out[k] == paired(q1, q2, func, i, j)
}

/// Every two elements of the same class are joined into an emitted pair.
pub open spec fn join_complete<T1, T2, T3, C: Combiner<T1, T2, T3>>(
    q1: Seq<IdxValue<T1>>,
    q2: Seq<IdxValue<T2>>,
    func: C,
    out: Seq<IdxValue<T3>>,
) -> bool {
    forall|i: int, j: int|
        0 <= i < q1.len() && 0 <= j < q2.len() && #[trigger] q1[i].index.class()
            == #[trigger] q2[j].index.class() ==> exists|k: int|
            0 <= k < out.len() && out[k] == paired(q1, q2, func, i, j)
}

/// Elements of `q1` above the last class of `q2` are among the last `n`.
pub open spec fn kept_above<T1, T2>(q1: Seq<IdxValue<T1>>, q2: Seq<IdxValue<T2>>, n: int) -> bool {
    forall|i: int|
        0 <= i < q1.len() && q2.len() > 0 && #[trigger] q1[i].index.class()
            > q2.last().index.class() ==> i >= q1.len() - n
}

proof fn lemma_merge_sound<T1, T2, T3, C: Combiner<T1, T2, T3>>(
    q1: Seq<IdxValue<T1>>,
    q2: Seq<IdxValue<T2>>,
    func: C,
)
    ensures
        join_sound(q1, q2, func, merge(q1, q2, func).2),
    decreases q1.len() + q2.len(),
{
    let m = merge(q1, q2, func);
    if q1.len() > 0 && q2.len() > 0 {
        let q1r = q1.drop_first();
        let q2r = q2.drop_first();
        if q1[0].index.class() == q2[0].index.class() {
            lemma_merge_sound(q1r, q2r, func);
            let r = merge(q1r, q2r, func);
            assert forall|k: int| 0 <= k < m.2.len() implies exists|i: int, j: int|
                0 <= i < q1.len() && 0 <= j < q2.len() && q1[i].index.class()
                    == q2[j].index.class() && #[trigger] m.2[k] == paired(q1, q2, func, i, j) by {
                if k == 0 {
                    assert(m.2[0] == paired(q1, q2, func, 0, 0));
                } else {
                    assert(m.2[k] == r.2[k - 1]);
                    let (i, j) = choose|i: int, j: int|
                        0 <= i < q1r.len() && 0 <= j < q2r.len() && q1r[i].index.class()
                            == q2r[j].index.class() && #[trigger] r.2[k - 1] == paired(
                            q1r,
                            q2r,
                            func,
                            i,
                            j,
                        );
                    assert(m.2[k] == paired(q1, q2, func, i + 1, j + 1));
                }
            }
        } else if q1[0].index.class() < q2[0].index.class() {
            lemma_merge_sound(q1r, q2, func);
            assert forall|k: int| 0 <= k < m.2.len() implies exists|i: int, j: int|
                0 <= i < q1.len() && 0 <= j < q2.len() && q1[i].index.class()
                    == q2[j].index.class() && #[trigger] m.2[k] == paired(q1, q2, func, i, j) by {
                let (i, j) = choose|i: int, j: int|
                    0 <= i < q1r.len() && 0 <= j < q2.len() && q1r[i].index.class()
                        == q2[j].index.class() && #[trigger] m.2[k] == paired(q1r, q2, func, i, j);
                assert(m.2[k] == paired(q1, q2, func, i + 1, j));
            }
        } else {
            lemma_merge_sound(q1, q2r, func);
            assert forall|k: int| 0 <= k < m.2.len() implies exists|i: int, j: int|
                0 <= i < q1.len() && 0 <= j < q2.len() && q1[i].index.class()
                    == q2[j].index.class() && #[trigger] m.2[k] == paired(q1, q2, func, i, j) by {
                let (i, j) = choose|i: int, j: int|
                    0 <= i < q1.len() && 0 <= j < q2r.len() && q1[i].index.class()
                        == q2r[j].index.class() && #[trigger] m.2[k] == paired(q1, q2r, func, i, j);
                assert(m.2[k] == paired(q1, q2, func, i, j + 1));
            }
        }
    }
}

proof fn lemma_merge_sorted<T1, T2, T3, C: Combiner<T1, T2, T3>>(
    q1: Seq<IdxValue<T1>>,
    q2: Seq<IdxValue<T2>>,
    func: C,
)
    requires
        strictly_sorted(q1),
    ensures
        strictly_sorted(merge(q1, q2, func).2),
    decreases q1.len() + q2.len(),
{
    let m = merge(q1, q2, func);
    if q1.len() > 0 && q2.len() > 0 {
        let q1r = q1.drop_first();
        let q2r = q2.drop_first();
        if q1[0].index.class() == q2[0].index.class() {
            lemma_merge_sorted(q1r, q2r, func);
            lemma_merge_sound(q1r, q2r, func);
            let r = merge(q1r, q2r, func);
            assert forall|k: int| 0 <= k < r.2.len() implies r.2[k].index.class()
                > q1[0].index.class() by {
                let (i, j) = choose|i: int, j: int|
                    0 <= i < q1r.len() && 0 <= j < q2r.len() && q1r[i].index.class()
                        == q2r[j].index.class() && #[trigger] r.2[k] == paired(q1r, q2r, func, i, j);
                assert(q1[i + 1] == q1r[i]);
            }
            assert forall|a: int, b: int| 0 <= a < b < m.2.len() implies m.2[a].index.class()
                < m.2[b].index.class() by {
                assert(m.2[b] == r.2[b - 1]);
                if a > 0 {
                    assert(m.2[a] == r.2[a - 1]);
                }
            }
        } else if q1[0].index.class() < q2[0].index.class() {
            lemma_merge_sorted(q1r, q2, func);
        } else {
            lemma_merge_sorted(q1, q2r, func);
        }
    }
}

proof fn lemma_merge_complete<T1, T2, T3, C: Combiner<T1, T2, T3>>(
    q1: Seq<IdxValue<T1>>,
    q2: Seq<IdxValue<T2>>,
    func: C,
)
    requires
        strictly_sorted(q1),
        strictly_sorted(q2),
    ensures
        join_complete(q1, q2, func, merge(q1, q2, func).2),
    decreases q1.len() + q2.len(),
{
    let m = merge(q1, q2, func);
    if q1.len() > 0 && q2.len() > 0 {
        let q1r = q1.drop_first();
        let q2r = q2.drop_first();
        if q1[0].index.class() == q2[0].index.class() {
            lemma_merge_complete(q1r, q2r, func);
            let r = merge(q1r, q2r, func);
            assert forall|i: int, j: int|
                0 <= i < q1.len() && 0 <= j < q2.len() && #[trigger] q1[i].index.class()
                    == #[trigger] q2[j].index.class() implies exists|k: int|
                0 <= k < m.2.len() && m.2[k] == paired(q1, q2, func, i, j) by {
                if i == 0 {
                    if j > 0 {
                        assert(q2[0].index.class() < q2[j].index.class());
                    }
                    assert(m.2[0] == paired(q1, q2, func, 0, 0));
                } else {
                    assert(q1[0].index.class() < q1[i].index.class());
                    if j == 0 {
                        assert(false);
                    }
                    assert(q1r[i - 1].index.class() == q2r[j - 1].index.class());
                    let k = choose|k: int|
                        0 <= k < r.2.len() && r.2[k] == paired(q1r, q2r, func, i - 1, j - 1);
                    assert(m.2[k + 1] == r.2[k]);
                }
            }
        } else if q1[0].index.class() < q2[0].index.class() {
            lemma_merge_complete(q1r, q2, func);
            assert forall|i: int, j: int|
                0 <= i < q1.len() && 0 <= j < q2.len() && #[trigger] q1[i].index.class()
                    == #[trigger] q2[j].index.class() implies exists|k: int|
                0 <= k < m.2.len() && m.2[k] == paired(q1, q2, func, i, j) by {
                if i == 0 {
                    if j > 0 {
                        assert(q2[0].index.class() < q2[j].index.class());
                    }
                    assert(false);
                }
                assert(q1r[i - 1] == q1[i]);
                assert(q1r[i - 1].index.class() == q2[j].index.class());
                assert(paired(q1r, q2, func, i - 1, j) == paired(q1, q2, func, i, j));
            }
        } else {
            lemma_merge_complete(q1, q2r, func);
            assert forall|i: int, j: int|
                0 <= i < q1.len() && 0 <= j < q2.len() && #[trigger] q1[i].index.class()
                    == #[trigger] q2[j].index.class() implies exists|k: int|
                0 <= k < m.2.len() && m.2[k] == paired(q1, q2, func, i, j) by {
                if j == 0 {
                    if i > 0 {
                        assert(q1[0].index.class() < q1[i].index.class());
                    }
                    assert(false);
                }
                assert(q2r[j - 1] == q2[j]);
                assert(q1[i].index.class() == q2r[j - 1].index.class());
                assert(paired(q1, q2r, func, i, j - 1) == paired(q1, q2, func, i, j));
            }
        }
    }
}

/// On a left queue sorted by bucket class, repeats allowed, the pairs come
/// out sorted by class too, and each joins two elements of one class.
pub proof fn lemma_merge_ordered<T1, T2, T3, C: Combiner<T1, T2, T3>>(
    q1: Seq<IdxValue<T1>>,
    q2: Seq<IdxValue<T2>>,
    func: C,
)
    requires
        sorted_by_class(q1),
    ensures
        sorted_by_class(merge(q1, q2, func).2),
        join_sound(q1, q2, func, merge(q1, q2, func).2),
    decreases q1.len() + q2.len(),
{
    lemma_merge_sound(q1, q2, func);
    let m = merge(q1, q2, func);
    if q1.len() > 0 && q2.len() > 0 {
        let q1r = q1.drop_first();
        let q2r = q2.drop_first();
        if q1[0].index.class() == q2[0].index.class() {
            lemma_merge_ordered(q1r, q2r, func);
            let r = merge(q1r, q2r, func);
            assert forall|k: int| 0 <= k < r.2.len() implies r.2[k].index.class()
                >= q1[0].index.class() by {
                let (i, j) = choose|i: int, j: int|
                    0 <= i < q1r.len() && 0 <= j < q2r.len() && q1r[i].index.class()
                        == q2r[j].index.class() && #[trigger] r.2[k] == paired(q1r, q2r, func, i, j);
                assert(q1[i + 1] == q1r[i]);
            }
            assert forall|a: int, b: int| 0 <= a < b < m.2.len() implies m.2[a].index.class()
                <= m.2[b].index.class() by {
                assert(m.2[b] == r.2[b - 1]);
                if a > 0 {
                    assert(m.2[a] == r.2[a - 1]);
                }
            }
        } else if q1[0].index.class() < q2[0].index.class() {
            lemma_merge_ordered(q1r, q2, func);
        } else {
            lemma_merge_ordered(q1, q2r, func);
        }
    }
}

/// On queues sorted by bucket class, repeats allowed, an element whose
/// class exceeds the other queue's last class is left in place, among what
/// the join hands back for a later join.
pub proof fn lemma_merge_kept<T1, T2, T3, C: Combiner<T1, T2, T3>>(
    q1: Seq<IdxValue<T1>>,
    q2: Seq<IdxValue<T2>>,
    func: C,
)
    requires
        sorted_by_class(q1),
        sorted_by_class(q2),
    ensures
        kept_above(q1, q2, merge(q1, q2, func).0.len() as int),
        kept_above(q2, q1, merge(q1, q2, func).1.len() as int),
    decreases q1.len() + q2.len(),
{
    let m = merge(q1, q2, func);
    if q1.len() > 0 && q2.len() > 0 {
        let q1r = q1.drop_first();
        let q2r = q2.drop_first();
        if q2.len() > 1 {
            assert(q2[0].index.class() <= q2[q2.len() - 1].index.class());
        }
        if q1.len() > 1 {
            assert(q1[0].index.class() <= q1[q1.len() - 1].index.class());
        }
        if q2r.len() > 0 {
            assert(q2r.last() == q2.last());
        }
        if q1r.len() > 0 {
            assert(q1r.last() == q1.last());
        }
        if q1[0].index.class() == q2[0].index.class() {
            lemma_merge_kept(q1r, q2r, func);
            assert forall|i: int|
                0 <= i < q1.len() && q2.len() > 0 && #[trigger] q1[i].index.class()
                    > q2.last().index.class() implies i >= q1.len() - m.0.len() by {
                assert(q1r[i - 1] == q1[i]);
            }
            assert forall|j: int|
                0 <= j < q2.len() && q1.len() > 0 && #[trigger] q2[j].index.class()
                    > q1.last().index.class() implies j >= q2.len() - m.1.len() by {
                assert(q2r[j - 1] == q2[j]);
            }
        } else if q1[0].index.class() < q2[0].index.class() {
            lemma_merge_kept(q1r, q2, func);
            assert forall|i: int|
                0 <= i < q1.len() && q2.len() > 0 && #[trigger] q1[i].index.class()
                    > q2.last().index.class() implies i >= q1.len() - m.0.len() by {
                assert(q1r[i - 1] == q1[i]);
            }
        } else {
            lemma_merge_kept(q1, q2r, func);
            assert forall|j: int|
                0 <= j < q2.len() && q1.len() > 0 && #[trigger] q2[j].index.class()
                    > q1.last().index.class() implies j >= q2.len() - m.1.len() by {
                assert(q2r[j - 1] == q2[j]);
            }
        }
    }
}

/// On queues sorted by strictly ascending bucket class, the join emits
/// exactly one pair per class present in both queues, in ascending order,
/// made of the two values of that class; and an element whose class exceeds
/// the other queue's last class is left in place for a later join.
pub proof fn lemma_merge_join<T1, T2, T3, C: Combiner<T1, T2, T3>>(
    q1: Seq<IdxValue<T1>>,
    q2: Seq<IdxValue<T2>>,
    func: C,
)
    requires
        strictly_sorted(q1),
        strictly_sorted(q2),
    ensures
        strictly_sorted(merge(q1, q2, func).2),
        join_sound(q1, q2, func, merge(q1, q2, func).2),
        join_complete(q1, q2, func, merge(q1, q2, func).2),
        kept_above(q1, q2, merge(q1, q2, func).0.len() as int),
        kept_above(q2, q1, merge(q1, q2, func).1.len() as int),
{
    lemma_merge_sound(q1, q2, func);
    lemma_merge_sorted(q1, q2, func);
    lemma_merge_complete(q1, q2, func);
    assert(sorted_by_class(q1));
    assert(sorted_by_class(q2));
    lemma_merge_kept(q1, q2, func);
    lemma_merge_rest(q1, q2, func);
}

/// Merge-joins `first` and `second`, appending the pairs to `total`;
/// returns the unconsumed rest of both queues and the extended `total`.
pub fn couple_inner<T1, T2, T3, C: Combiner<T1, T2, T3>>(
    first: VecDeque<IdxValue<T1>>,
    second: VecDeque<IdxValue<T2>>,
    total: VecDeque<IdxValue<T3>>,
    func: &C,
) -> (r: (VecDeque<IdxValue<T1>>, VecDeque<IdxValue<T2>>, VecDeque<IdxValue<T3>>))
    ensures
        r.0@ == merge(first@, second@, *func).0,
        r.1@ == merge(first@, second@, *func).1,
        r.2@ == total@ + merge(first@, second@, *func).2,
{
    let ghost m = merge(first@, second@, *func);
    let mut first = first;
    let mut second = second;
    let mut total = total;
    let ghost total0 = total@;
    while first.len() > 0 && second.len() > 0
        invariant
            merge(first@, second@, *func).0 == m.0,
            merge(first@, second@, *func).1 == m.1,
            total@ + merge(first@, second@, *func).2 == total0 + m.2,
        decreases first.len() + second.len(),
    {
        let ghost f0 = first@;
        let ghost s0 = second@;
        let b1 = first[0].index.bucket();
        let b2 = second[0].index.bucket();
        if b1 == b2 {
            let ghost rest = merge(first@.drop_first(), second@.drop_first(), *func);
            let iv1 = first.pop_front().unwrap();
            let iv2 = second.pop_front().unwrap();
            let result = func.combine(&iv1.value, &iv2.value);
            total.push_back(IdxValue::new_simple(iv1.index, result));
            assert(first@ =~= f0.drop_first());
            assert(second@ =~= s0.drop_first());
            assert(total@ + rest.2 =~= total0 + m.2) by {
                let p = seq![point(iv1.index, result)];
                assert(total@ + rest.2 =~= (total@.drop_last() + (p + rest.2)));
            }
        } else if b1 < b2 {
            first.pop_front();
            assert(first@ =~= f0.drop_first());
        } else {
            second.pop_front();
            assert(second@ =~= s0.drop_first());
        }
    }
    (first, second, total)
}

/// Merge-joins the output queues of two sub-patterns.
pub fn couple_process_queues<T1, T2, T3, C: Combiner<T1, T2, T3>>(
    first: VecDeque<IdxValue<T1>>,
    second: VecDeque<IdxValue<T2>>,
    total: VecDeque<IdxValue<T3>>,
    func: &C,
) -> (r: (VecDeque<IdxValue<T1>>, VecDeque<IdxValue<T2>>, VecDeque<IdxValue<T3>>))
    ensures
        r.0@ == merge(first@, second@, *func).0,
        r.1@ == merge(first@, second@, *func).1,
        r.2@ == total@ + merge(first@, second@, *func).2,
{
    couple_inner(first, second, total, func)
}

} // verus!
