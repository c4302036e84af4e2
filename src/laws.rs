use vstd::prelude::*;
use crate::idx::{point, IdxValue, Outcome};
use crate::merge::{merge, Combiner, LogicalAnd};
use crate::pattern::{IdxExtractor, Evaluator, Pattern, SimplePattern, SimplePatternState};

verus! {

/// A leaf keeps what its queue held and appends one value per event, in the
/// order of the batch, at the index the extractor gives that event.
pub proof fn lemma_leaf_order<Event, T, X: IdxExtractor<Event>, E: Evaluator<Event, T>>(
    p: SimplePattern<X, E>,
    m: Seq<IdxValue<T>>,
    events: Seq<Event>,
)
    ensures
        ({
            let n = <SimplePattern<X, E> as Pattern<Event, SimplePatternState<T>, T>>::next(
                &p,
                m,
                events,
            );
            &&& n.len() == m.len() + events.len()
            &&& n.take(m.len() as int) == m
            &&& forall|i: int|
                0 <= i < events.len() ==> #[trigger] n[m.len() + i] == point(
                    p.extractor.index_of(events[i]),
                    p.eval.evaluated(events[i]),
                )
        }),
{
    let n = <SimplePattern<X, E> as Pattern<Event, SimplePatternState<T>, T>>::next(
        &p,
        m,
        events,
    );
    assert(n.take(m.len() as int) =~= m);
}

/// Under logical AND a failure on either side of a pair fails the pair: the
/// join emits a failure at that index rather than skipping it.
pub proof fn lemma_and_failure(q1: Seq<IdxValue<bool>>, q2: Seq<IdxValue<bool>>)
    requires
        q1.len() > 0,
        q2.len() > 0,
        q1[0].index.class() == q2[0].index.class(),
        q1[0].value == Outcome::<bool>::Failure || q2[0].value == Outcome::<bool>::Failure,
    ensures
        merge(q1, q2, LogicalAnd).2.len() > 0,
        merge(q1, q2, LogicalAnd).2[0] == point(q1[0].index, Outcome::<bool>::Failure),
{
}

} // verus!
