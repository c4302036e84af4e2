use vstd::prelude::*;
use std::collections::VecDeque;
use core::marker::PhantomData;
use crate::idx::IdxValue;
use crate::merge::{couple_inner, lemma_merge_rest, lemma_merge_resume, merge, Combiner};
use crate::pattern::{Pattern, PatternState};

verus! {

/// Joins the output of two sub-patterns, fed the same events, by pairing
/// values whose indices fall in one bucket and combining them with `func`.
pub struct CouplePattern<L, R, C> {
    pub left: L,
    pub right: R,
    pub func: C,
}

/// The state of a coupled pattern: the states of both sub-patterns and its
/// own output queue.
pub struct CouplePatternState<S1, S2, T1, T2, T3> {
    pub left: S1,
    pub right: S2,
    pub queue: VecDeque<IdxValue<T3>>,
    pub phantom: PhantomData<(T1, T2)>,
}

impl<S1: PatternState<T1>, S2: PatternState<T2>, T1, T2, T3> PatternState<T3> for CouplePatternState<
    S1,
    S2,
    T1,
    T2,
    T3,
> {
    type Model = (S1::Model, S2::Model, Seq<IdxValue<T3>>);

    open spec fn model(&self) -> (S1::Model, S2::Model, Seq<IdxValue<T3>>) {
        (self.left.model(), self.right.model(), self.queue@)
    }

    open spec fn queue_of(m: (S1::Model, S2::Model, Seq<IdxValue<T3>>)) -> Seq<IdxValue<T3>> {
        m.2
    }

    open spec fn with_queue(m: (S1::Model, S2::Model, Seq<IdxValue<T3>>), q: Seq<IdxValue<T3>>) -> (
        S1::Model,
        S2::Model,
        Seq<IdxValue<T3>>,
    ) {
        (m.0, m.1, q)
    }

    /// Both sub-states are settled, and one of their queues is empty: all
    /// that could be joined has been.
    open spec fn settled(m: (S1::Model, S2::Model, Seq<IdxValue<T3>>)) -> bool {
        &&& S1::settled(m.0)
        &&& S2::settled(m.1)
        &&& (S1::queue_of(m.0).len() == 0 || S2::queue_of(m.1).len() == 0)
    }

    proof fn lemma_with_queue(
        m: (S1::Model, S2::Model, Seq<IdxValue<T3>>),
        q: Seq<IdxValue<T3>>,
        q2: Seq<IdxValue<T3>>,
    ) {
    }

    fn queue(&self) -> (r: &VecDeque<IdxValue<T3>>) {
        &self.queue
    }

    fn copy_with_queue(self, queue: VecDeque<IdxValue<T3>>) -> (r: Self) {
        CouplePatternState { left: self.left, right: self.right, queue, phantom: self.phantom }
    }

    fn take_queue(&mut self) -> (r: VecDeque<IdxValue<T3>>) {
        let mut q = VecDeque::new();
        core::mem::swap(&mut q, &mut self.queue);
        q
    }
}

impl<
    Event,
    S1: PatternState<T1>,
    S2: PatternState<T2>,
    T1,
    T2,
    T3,
    L: Pattern<Event, S1, T1>,
    R: Pattern<Event, S2, T2>,
    C: Combiner<T1, T2, T3>,
> Pattern<Event, CouplePatternState<S1, S2, T1, T2, T3>, T3> for CouplePattern<L, R, C> {
    /// Both sub-patterns take the batch; their queues are merge-joined, what
    /// the join did not consume stays with them, and the pairs are appended
    /// to the own queue.
    open spec fn next(&self, m: (S1::Model, S2::Model, Seq<IdxValue<T3>>), events: Seq<Event>) -> (
        S1::Model,
        S2::Model,
        Seq<IdxValue<T3>>,
    ) {
        let l = self.left.next(m.0, events);
        let r = self.right.next(m.1, events);
        let j = merge(S1::queue_of(l), S2::queue_of(r), self.func);
        (S1::with_queue(l, j.0), S2::with_queue(r, j.1), m.2 + j.2)
    }

    open spec fn initial(&self) -> (S1::Model, S2::Model, Seq<IdxValue<T3>>) {
        (self.left.initial(), self.right.initial(), Seq::empty())
    }

    /// The batch keeps the leaves of both sub-patterns in order.
    open spec fn in_order(&self, m: (S1::Model, S2::Model, Seq<IdxValue<T3>>), events: Seq<Event>) -> bool {
        self.left.in_order(m.0, events) && self.right.in_order(m.1, events)
    }

    proof fn lemma_initial(&self) {
        self.left.lemma_initial();
        self.right.lemma_initial();
    }

    fn check_order(&self, state: &CouplePatternState<S1, S2, T1, T2, T3>, events: &Vec<Event>) -> (r:
        bool) {
        self.left.check_order(&state.left, events) && self.right.check_order(&state.right, events)
    }

    fn initial_state(&self) -> (r: CouplePatternState<S1, S2, T1, T2, T3>) {
        CouplePatternState {
            left: self.left.initial_state(),
            right: self.right.initial_state(),
            queue: VecDeque::new(),
            phantom: PhantomData,
        }
    }

    fn apply(&self, old_state: CouplePatternState<S1, S2, T1, T2, T3>, events: &Vec<Event>) -> (r:
        CouplePatternState<S1, S2, T1, T2, T3>) {
        let CouplePatternState { left, right, queue, phantom } = old_state;
        let mut left = self.left.apply(left, events);
        let mut right = self.right.apply(right, events);
        let ghost lm = left.model();
        let ghost rm = right.model();
        let lq = left.take_queue();
        let rq = right.take_queue();
        let (lrest, rrest, queue) = couple_inner(lq, rq, queue, &self.func);
        proof {
            S1::lemma_with_queue(lm, Seq::empty(), lrest@);
            S2::lemma_with_queue(rm, Seq::empty(), rrest@);
        }
        CouplePatternState {
            left: left.copy_with_queue(lrest),
            right: right.copy_with_queue(rrest),
            queue,
            phantom,
        }
    }

    proof fn lemma_next_concat(
        &self,
        m: (S1::Model, S2::Model, Seq<IdxValue<T3>>),
        a: Seq<Event>,
        b: Seq<Event>,
    ) {
        let la = self.left.next(m.0, a);
        let ra = self.right.next(m.1, a);
        let ja = merge(S1::queue_of(la), S2::queue_of(ra), self.func);
        let lab = self.left.next(la, b);
        let rab = self.right.next(ra, b);
        self.left.lemma_next_concat(m.0, a, b);
        self.right.lemma_next_concat(m.1, a, b);
        self.left.lemma_next_queue(la, ja.0, b);
        self.right.lemma_next_queue(ra, ja.1, b);
        let tl = S1::queue_of(lab).skip(S1::queue_of(la).len() as int);
        let tr = S2::queue_of(rab).skip(S2::queue_of(ra).len() as int);
        assert(S1::queue_of(lab) =~= S1::queue_of(la) + tl);
        assert(S2::queue_of(rab) =~= S2::queue_of(ra) + tr);
        S1::lemma_with_queue(lab, ja.0 + tl, Seq::empty());
        S2::lemma_with_queue(rab, ja.1 + tr, Seq::empty());
        lemma_merge_resume(S1::queue_of(la), tl, S2::queue_of(ra), tr, self.func);
        let jb = merge(ja.0 + tl, ja.1 + tr, self.func);
        S1::lemma_with_queue(lab, ja.0 + tl, jb.0);
        S2::lemma_with_queue(rab, ja.1 + tr, jb.1);
        assert(m.2 + ja.2 + jb.2 =~= m.2 + (ja.2 + jb.2));
    }

    proof fn lemma_next_queue(
        &self,
        m: (S1::Model, S2::Model, Seq<IdxValue<T3>>),
        q: Seq<IdxValue<T3>>,
        events: Seq<Event>,
    ) {
        let l = self.left.next(m.0, events);
        let r = self.right.next(m.1, events);
        let j = merge(S1::queue_of(l), S2::queue_of(r), self.func);
        assert((m.2 + j.2).skip(m.2.len() as int) =~= j.2);
        assert((m.2 + j.2).take(m.2.len() as int) =~= m.2);
    }

    proof fn lemma_next_settled(&self, m: (S1::Model, S2::Model, Seq<IdxValue<T3>>), events: Seq<Event>) {
        let l = self.left.next(m.0, events);
        let r = self.right.next(m.1, events);
        let j = merge(S1::queue_of(l), S2::queue_of(r), self.func);
        self.left.lemma_next_settled(m.0, events);
        self.right.lemma_next_settled(m.1, events);
        S1::lemma_with_queue(l, j.0, j.0);
        S2::lemma_with_queue(r, j.1, j.1);
        lemma_merge_rest(S1::queue_of(l), S2::queue_of(r), self.func);
    }

    proof fn lemma_next_empty(&self, m: (S1::Model, S2::Model, Seq<IdxValue<T3>>)) {
        self.left.lemma_next_empty(m.0);
        self.right.lemma_next_empty(m.1);
        S1::lemma_with_queue(m.0, Seq::empty(), Seq::empty());
        S2::lemma_with_queue(m.1, Seq::empty(), Seq::empty());
        assert(m.2 + Seq::<IdxValue<T3>>::empty() =~= m.2);
    }
}

impl<L, R, C> CouplePattern<L, R, C> {
    /// Feeds `events` as `apply` does when they keep every leaf in order;
    /// otherwise hands the state back untouched.
    pub fn apply_checked<Event, S1, S2, T1, T2, T3>(
        &self,
        old_state: CouplePatternState<S1, S2, T1, T2, T3>,
        events: &Vec<Event>,
    ) -> (r: Result<CouplePatternState<S1, S2, T1, T2, T3>, CouplePatternState<S1, S2, T1, T2, T3>>) where
        S1: PatternState<T1>,
        S2: PatternState<T2>,
        L: Pattern<Event, S1, T1>,
        R: Pattern<Event, S2, T2>,
        C: Combiner<T1, T2, T3>,

        ensures
            r is Ok <==> <CouplePattern<L, R, C> as Pattern<
                Event,
                CouplePatternState<S1, S2, T1, T2, T3>,
                T3,
            >>::in_order(self, old_state.model(), events@),
            r matches Ok(s) ==> s.model() == <CouplePattern<L, R, C> as Pattern<
                Event,
                CouplePatternState<S1, S2, T1, T2, T3>,
                T3,
            >>::next(self, old_state.model(), events@),
            r matches Err(s) ==> s.model() == old_state.model(),
    {
        if self.check_order(&old_state, events) {
            Ok(self.apply(old_state, events))
        } else {
            Err(old_state)
        }
    }
}

} // verus!
