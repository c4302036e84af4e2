use vstd::prelude::*;
use std::collections::VecDeque;
use crate::idx::{point, Idx, IdxValue, Outcome};

verus! {

/// The evaluation memory of one pattern instance. Its contents are modelled
/// by a value of `Model`, which holds the state's own output queue.
pub trait PatternState<T>: Sized {
    type Model;

    spec fn model(&self) -> Self::Model;

    /// The output queue held in a model.
    spec fn queue_of(m: Self::Model) -> Seq<IdxValue<T>>;

    /// A model equal to `m` but for its output queue, which is `q`.
    spec fn with_queue(m: Self::Model, q: Seq<IdxValue<T>>) -> Self::Model;

    /// Whether every combinator in the state has joined all it could.
    spec fn settled(m: Self::Model) -> bool;

    proof fn lemma_with_queue(m: Self::Model, q: Seq<IdxValue<T>>, q2: Seq<IdxValue<T>>)
        ensures
            Self::queue_of(Self::with_queue(m, q)) == q,
            Self::with_queue(Self::with_queue(m, q), q2) == Self::with_queue(m, q2),
            Self::with_queue(m, Self::queue_of(m)) == m,
            Self::settled(Self::with_queue(m, q)) == Self::settled(m),
    ;

    /// The current output queue.
    fn queue(&self) -> (r: &VecDeque<IdxValue<T>>)
        ensures
            r@ == Self::queue_of(self.model()),
    ;

    /// The same state with `queue` as its output queue.
    fn copy_with_queue(self, queue: VecDeque<IdxValue<T>>) -> (r: Self)
        ensures
            r.model() == Self::with_queue(self.model(), queue@),
    ;

    /// Moves the output queue out, leaving an empty one.
    fn take_queue(&mut self) -> (r: VecDeque<IdxValue<T>>)
        ensures
            r@ == Self::queue_of(old(self).model()),
            final(self).model() == Self::with_queue(old(self).model(), Seq::empty()),
    ;
}

/// A pattern: a fixed definition whose state advances by batches of events.
pub trait Pattern<Event, S: PatternState<T>, T> {
    /// The state model after feeding `events` to a state modelled by `m`.
    spec fn next(&self, m: S::Model, events: Seq<Event>) -> S::Model;

    /// The model of the state before any event: every queue in it empty.
    spec fn initial(&self) -> S::Model;

    /// Whether `events` keep the index classes of every leaf in the pattern
    /// from stepping back, after what the state modelled by `m` holds.
    spec fn in_order(&self, m: S::Model, events: Seq<Event>) -> bool;

    fn initial_state(&self) -> (r: S)
        ensures
            r.model() == self.initial(),
    ;

    /// The initial model has an empty output queue and is settled.
    proof fn lemma_initial(&self)
        ensures
            S::queue_of(self.initial()) == Seq::<IdxValue<T>>::empty(),
            S::settled(self.initial()),
    ;

    /// Tests whether a batch may be fed to `state`.
    fn check_order(&self, state: &S, events: &Vec<Event>) -> (r: bool)
        ensures
            r == self.in_order(state.model(), events@),
    ;

    /// Feeds a batch whose indices keep every leaf in order; a caller that
    /// cannot vouch for that tests it with `check_order` first.
    fn apply(&self, old_state: S, events: &Vec<Event>) -> (r: S)
        requires
            self.in_order(old_state.model(), events@),
        ensures
            r.model() == self.next(old_state.model(), events@),
    ;

    /// Feeding two batches in turn is feeding their concatenation.
    proof fn lemma_next_concat(&self, m: S::Model, a: Seq<Event>, b: Seq<Event>)
        ensures
            self.next(self.next(m, a), b) == self.next(m, a + b),
    ;

    /// A batch only appends to the output queue, and what it appends does not
    /// depend on what the queue held.
    proof fn lemma_next_queue(&self, m: S::Model, q: Seq<IdxValue<T>>, events: Seq<Event>)
        ensures
            S::queue_of(self.next(m, events)).len() >= S::queue_of(m).len(),
            S::queue_of(self.next(m, events)).take(S::queue_of(m).len() as int) == S::queue_of(m),
            self.next(S::with_queue(m, q), events) == S::with_queue(
                self.next(m, events),
                q + S::queue_of(self.next(m, events)).skip(S::queue_of(m).len() as int),
            ),
    ;

    /// After any batch the state is settled.
    proof fn lemma_next_settled(&self, m: S::Model, events: Seq<Event>)
        ensures
            S::settled(self.next(m, events)),
    ;

    /// An empty batch leaves a settled state as it was.
    proof fn lemma_next_empty(&self, m: S::Model)
        requires
            S::settled(m),
        ensures
            self.next(m, Seq::empty()) == m,
    ;
}

/// Where an event stands in the stream.
pub trait IdxExtractor<Event> {
    spec fn index_of(&self, event: Event) -> Idx;

    fn extract(&self, event: &Event) -> (r: Idx)
        ensures
            r == self.index_of(*event),
    ;
}

/// Reads a named field of an event.
pub trait FieldExtractor<Event, T> {
    spec fn field_of(&self, event: Event, key: String) -> T;

    fn extract(&self, event: &Event, key: &String) -> (r: T)
        ensures
            r == self.field_of(*event, *key),
    ;
}

/// Evaluates one event to an outcome: a condition or an expression.
pub trait Evaluator<Event, T> {
    spec fn evaluated(&self, event: Event) -> Outcome<T>;

    fn evaluate(&self, event: &Event) -> (r: Outcome<T>)
        ensures
            r == self.evaluated(*event),
    ;
}

/// Evaluates every event to the same value.
pub struct Constant<T> {
    pub value: T,
}

impl<Event, T: Copy> Evaluator<Event, T> for Constant<T> {
    open spec fn evaluated(&self, event: Event) -> Outcome<T> {
        Outcome::Success(self.value)
    }

    fn evaluate(&self, event: &Event) -> (r: Outcome<T>) {
        Outcome::Success(self.value)
    }
}

/// Evaluates every event to one of its fields.
pub struct FieldLookup<F> {
    pub key: String,
    pub fields: F,
}

impl<Event, T, F: FieldExtractor<Event, T>> Evaluator<Event, T> for FieldLookup<F> {
    open spec fn evaluated(&self, event: Event) -> Outcome<T> {
        Outcome::Success(self.fields.field_of(event, self.key))
    }

    fn evaluate(&self, event: &Event) -> (r: Outcome<T>) {
        Outcome::Success(self.fields.extract(event, &self.key))
    }
}

/// A leaf pattern: one point value per event, at the extracted index.
pub struct SimplePattern<X, E> {
    pub extractor: X,
    pub eval: E,
}

/// The state of a leaf pattern: its output queue alone.
pub struct SimplePatternState<T> {
    pub queue: VecDeque<IdxValue<T>>,
}

impl<T> PatternState<T> for SimplePatternState<T> {
    type Model = Seq<IdxValue<T>>;

    open spec fn model(&self) -> Seq<IdxValue<T>> {
        self.queue@
    }

    open spec fn queue_of(m: Seq<IdxValue<T>>) -> Seq<IdxValue<T>> {
        m
    }

    open spec fn with_queue(m: Seq<IdxValue<T>>, q: Seq<IdxValue<T>>) -> Seq<IdxValue<T>> {
        q
    }

    open spec fn settled(m: Seq<IdxValue<T>>) -> bool {
        true
    }

    proof fn lemma_with_queue(m: Seq<IdxValue<T>>, q: Seq<IdxValue<T>>, q2: Seq<IdxValue<T>>) {
    }

    fn queue(&self) -> (r: &VecDeque<IdxValue<T>>) {
        &self.queue
    }

    fn copy_with_queue(self, queue: VecDeque<IdxValue<T>>) -> (r: SimplePatternState<T>) {
        SimplePatternState { queue }
    }

    fn take_queue(&mut self) -> (r: VecDeque<IdxValue<T>>) {
        let mut q = VecDeque::new();
        core::mem::swap(&mut q, &mut self.queue);
        q
    }
}

/// The point values that a leaf emits for `events`, in their order.
pub open spec fn emitted<Event, T, X: IdxExtractor<Event>, E: Evaluator<Event, T>>(
    extractor: X,
    eval: E,
    events: Seq<Event>,
) -> Seq<IdxValue<T>> {
    events.map_values(|e: Event| point(extractor.index_of(e), eval.evaluated(e)))
}

impl<Event, T, X: IdxExtractor<Event>, E: Evaluator<Event, T>> Pattern<
    Event,
    SimplePatternState<T>,
    T,
> for SimplePattern<X, E> {
    open spec fn next(&self, m: Seq<IdxValue<T>>, events: Seq<Event>) -> Seq<IdxValue<T>> {
        m + emitted(self.extractor, self.eval, events)
    }

    open spec fn initial(&self) -> Seq<IdxValue<T>> {
        Seq::empty()
    }

    /// The values this batch appends never fall in an earlier bucket than
    /// the value before them.
    open spec fn in_order(&self, m: Seq<IdxValue<T>>, events: Seq<Event>) -> bool {
        in_order_from(m + emitted(self.extractor, self.eval, events), m.len() as int)
    }

    fn initial_state(&self) -> (r: SimplePatternState<T>) {
        SimplePatternState { queue: VecDeque::new() }
    }

    proof fn lemma_initial(&self) {
    }

    fn check_order(&self, state: &SimplePatternState<T>, events: &Vec<Event>) -> (r: bool) {
        self.first_step_back(&state.queue, events).is_none()
    }

    fn apply(&self, old_state: SimplePatternState<T>, events: &Vec<Event>) -> (r:
        SimplePatternState<T>) {
        let mut queue = old_state.queue;
        let ghost q0 = queue@;
        let mut i: usize = 0;
        while i < events.len()
            invariant
                i <= events@.len(),
                queue@ == q0 + emitted(self.extractor, self.eval, events@.take(i as int)),
            decreases events.len() - i,
        {
            let e = &events[i];
            let v = IdxValue::new_simple(self.extractor.extract(e), self.eval.evaluate(e));
            queue.push_back(v);
            assert(events@.take(i + 1) =~= events@.take(i as int).push(events@[i as int]));
            i = i + 1;
            assert(queue@ =~= q0 + emitted(self.extractor, self.eval, events@.take(i as int)));
        }
        assert(events@.take(i as int) =~= events@);
        SimplePatternState { queue }
    }

    proof fn lemma_next_concat(&self, m: Seq<IdxValue<T>>, a: Seq<Event>, b: Seq<Event>) {
        assert(emitted(self.extractor, self.eval, a + b) =~= emitted(self.extractor, self.eval, a)
            + emitted(self.extractor, self.eval, b));
        assert(m + emitted(self.extractor, self.eval, a) + emitted(self.extractor, self.eval, b)
            =~= m + (emitted(self.extractor, self.eval, a) + emitted(
            self.extractor,
            self.eval,
            b,
        )));
    }

    proof fn lemma_next_queue(&self, m: Seq<IdxValue<T>>, q: Seq<IdxValue<T>>, events: Seq<Event>) {
        let n = m + emitted(self.extractor, self.eval, events);
        assert(n.take(m.len() as int) =~= m);
        assert(n.skip(m.len() as int) =~= emitted(self.extractor, self.eval, events));
    }

    proof fn lemma_next_settled(&self, m: Seq<IdxValue<T>>, events: Seq<Event>) {
    }

    proof fn lemma_next_empty(&self, m: Seq<IdxValue<T>>) {
        assert(m + emitted(self.extractor, self.eval, Seq::<Event>::empty()) =~= m);
    }
}

/// Whether the element at `i` stays in or after the bucket of the one
/// before it.
pub open spec fn step_in_order<T>(q: Seq<IdxValue<T>>, i: int) -> bool {
    i == 0 || q[i - 1].index.class() <= q[i].index.class()
}

/// Whether no element from position `from` on steps back to an earlier
/// bucket.
pub open spec fn in_order_from<T>(q: Seq<IdxValue<T>>, from: int) -> bool {
    forall|i: int| from <= i < q.len() ==> #[trigger] step_in_order(q, i)
}

/// A batch that would take a leaf's indices back to an earlier bucket: the
/// state it was refused on, and the position in the batch of the first
/// event out of order.
pub struct OutOfOrder<T> {
    pub state: SimplePatternState<T>,
    pub position: usize,
}

impl<X, E> SimplePattern<X, E> {
    /// The position in `events` of the first event whose index falls in an
    /// earlier bucket than the value before it, after `queue`; `None` when
    /// there is none.
    pub fn first_step_back<Event, T>(
        &self,
        queue: &VecDeque<IdxValue<T>>,
        events: &Vec<Event>,
    ) -> (r: Option<usize>) where
        X: IdxExtractor<Event>,
        E: Evaluator<Event, T>,

        ensures
            ({
                let n = queue@ + emitted(self.extractor, self.eval, events@);
                let k = queue@.len();
                &&& r is None <==> in_order_from(n, k as int)
                &&& r matches Some(pos) ==> {
                    &&& pos < events@.len()
                    &&& !step_in_order(n, k + pos)
                    &&& in_order_from(n.take(k + pos), k as int)
                }
            }),
    {
        let ghost n = queue@ + emitted(self.extractor, self.eval, events@);
        let k = queue.len();
        let mut has_prev = k > 0;
        let mut prev: u64 = if k > 0 {
            queue[k - 1].index.bucket()
        } else {
            0
        };
        let mut i: usize = 0;
        while i < events.len()
            invariant
                i <= events@.len(),
                k == queue@.len(),
                n == queue@ + emitted(self.extractor, self.eval, events@),
                has_prev == (k + i > 0),
                has_prev ==> prev == n[k + i - 1].index.class(),
                in_order_from(n.take(k + i), k as int),
            decreases events.len() - i,
        {
            let b = self.extractor.extract(&events[i]).bucket();
            assert(n[k + i] == point(
                self.extractor.index_of(events@[i as int]),
                self.eval.evaluated(events@[i as int]),
            ));
            if has_prev && b < prev {
                assert(!step_in_order(n, k + i));
                return Some(i);
            }
            assert(step_in_order(n, k + i));
            assert forall|j: int| k <= j < n.take(k + i + 1).len() implies #[trigger] step_in_order(
                n.take(k + i + 1),
                j,
            ) by {
                if j < k + i {
                    assert(step_in_order(n.take(k + i), j));
                }
            }
            prev = b;
            has_prev = true;
            i = i + 1;
        }
        assert(n.take(k + i) =~= n);
        None
    }

    /// Feeds `events` as `apply` does, unless an event's index falls in an
    /// earlier bucket than the value before it; then the state is handed
    /// back untouched with the first such event's position.
    pub fn apply_checked<Event, T>(
        &self,
        old_state: SimplePatternState<T>,
        events: &Vec<Event>,
    ) -> (r: Result<SimplePatternState<T>, OutOfOrder<T>>) where
        X: IdxExtractor<Event>,
        E: Evaluator<Event, T>,

        ensures
            ({
                let n = old_state.queue@ + emitted(self.extractor, self.eval, events@);
                let k = old_state.queue@.len();
                &&& r is Ok <==> in_order_from(n, k as int)
                &&& r matches Ok(s) ==> s.queue@ == n
                &&& r matches Err(e) ==> {
                    &&& e.state.queue@ == old_state.queue@
                    &&& e.position < events@.len()
                    &&& !step_in_order(n, k + e.position)
                    &&& in_order_from(n.take(k + e.position), k as int)
                }
            }),
    {
        match self.first_step_back(&old_state.queue, events) {
            Some(position) => Err(OutOfOrder { state: old_state, position }),
            None => Ok(<SimplePattern<X, E> as Pattern<Event, SimplePatternState<T>, T>>::apply(
                self,
                old_state,
                events,
            )),
        }
    }
}

/// A leaf that evaluates every event to `value`.
pub fn constant<T: Copy, X>(value: T, extractor: X) -> (r: SimplePattern<X, Constant<T>>)
    ensures
        r.extractor == extractor,
        r.eval.value == value,
{
    SimplePattern { extractor, eval: Constant { value } }
}

/// A leaf that evaluates every event to its field named `key`.
pub fn field<X, F>(key: String, extractor: X, field_extractor: F) -> (r: SimplePattern<
    X,
    FieldLookup<F>,
>)
    ensures
        r.extractor == extractor,
        r.eval.key == key,
        r.eval.fields == field_extractor,
{
    SimplePattern { extractor, eval: FieldLookup { key, fields: field_extractor } }
}

} // verus!
