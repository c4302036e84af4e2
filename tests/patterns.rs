use std::collections::VecDeque;

use cep_core::couple::{CouplePattern, CouplePatternState};
use cep_core::idx::{Idx, IdxValue, Outcome, BUCKET_SIZE};
use cep_core::merge::{couple_inner, couple_process_queues, LogicalAnd};
use cep_core::pattern::{
    constant, field, Evaluator, FieldExtractor, IdxExtractor, Pattern, PatternState,
    SimplePattern, SimplePatternState,
};
use cep_core::time::{Interval, RangeInterval, TimeInterval, Window};

struct Ev {
    seq: u64,
    speed: i64,
    voltage: i64,
}

fn ev(seq: u64, speed: i64, voltage: i64) -> Ev {
    Ev { seq, speed, voltage }
}

struct SeqIdx;

impl IdxExtractor<Ev> for SeqIdx {
    fn index_of(&self, event: Ev) -> Idx {
        Idx(event.seq)
    }

    fn extract(&self, event: &Ev) -> Idx {
        Idx(event.seq)
    }
}

struct SpeedPositive;

fn speed_positive(event: &Ev) -> Outcome<bool> {
    if event.speed > 0 {
        Outcome::Success(true)
    } else {
        Outcome::Failure
    }
}

impl Evaluator<Ev, bool> for SpeedPositive {
    fn evaluated(&self, event: Ev) -> Outcome<bool> {
        speed_positive(&event)
    }

    fn evaluate(&self, event: &Ev) -> Outcome<bool> {
        speed_positive(event)
    }
}

struct VoltageAtMost220;

impl Evaluator<Ev, bool> for VoltageAtMost220 {
    fn evaluated(&self, event: Ev) -> Outcome<bool> {
        Outcome::Success(event.voltage <= 220)
    }

    fn evaluate(&self, event: &Ev) -> Outcome<bool> {
        Outcome::Success(event.voltage <= 220)
    }
}

struct EvFields;

fn read_field(event: &Ev, key: &str) -> i64 {
    if key == "speed" {
        event.speed
    } else {
        event.voltage
    }
}

impl FieldExtractor<Ev, i64> for EvFields {
    fn field_of(&self, event: Ev, key: String) -> i64 {
        read_field(&event, &key)
    }

    fn extract(&self, event: &Ev, key: &String) -> i64 {
        read_field(event, key)
    }
}

type Leaf<E> = SimplePattern<SeqIdx, E>;
type AndPattern = CouplePattern<Leaf<SpeedPositive>, Leaf<VoltageAtMost220>, LogicalAnd>;
type AndState = CouplePatternState<
    SimplePatternState<bool>,
    SimplePatternState<bool>,
    bool,
    bool,
    bool,
>;

fn speed_leaf() -> Leaf<SpeedPositive> {
    SimplePattern { extractor: SeqIdx, eval: SpeedPositive }
}

fn voltage_leaf() -> Leaf<VoltageAtMost220> {
    SimplePattern { extractor: SeqIdx, eval: VoltageAtMost220 }
}

fn and_pattern() -> AndPattern {
    CouplePattern { left: speed_leaf(), right: voltage_leaf(), func: LogicalAnd }
}

fn and_init(p: &AndPattern) -> AndState {
    <AndPattern as Pattern<Ev, AndState, bool>>::initial_state(p)
}

fn and_apply(p: &AndPattern, s: AndState, events: &Vec<Ev>) -> AndState {
    <AndPattern as Pattern<Ev, AndState, bool>>::apply(p, s, events)
}

fn leaf_init<E: Evaluator<Ev, bool>>(p: &Leaf<E>) -> SimplePatternState<bool> {
    <Leaf<E> as Pattern<Ev, SimplePatternState<bool>, bool>>::initial_state(p)
}

fn leaf_apply<E: Evaluator<Ev, bool>>(
    p: &Leaf<E>,
    s: SimplePatternState<bool>,
    events: &Vec<Ev>,
) -> SimplePatternState<bool> {
    <Leaf<E> as Pattern<Ev, SimplePatternState<bool>, bool>>::apply(p, s, events)
}

fn flat<T: Copy>(q: &VecDeque<IdxValue<T>>) -> Vec<(u64, Option<T>)> {
    q.iter()
        .map(|v| {
            let o = match v.value {
                Outcome::Success(x) => Some(x),
                Outcome::Failure => None,
            };
            (v.index.0, o)
        })
        .collect()
}

fn pv<T>(raw: u64, value: Outcome<T>) -> IdxValue<T> {
    IdxValue::new_simple(Idx(raw), value)
}

#[test]
fn bucket_equality() {
    assert!(Idx(0) == Idx(BUCKET_SIZE - 1));
    assert!(!(Idx(0) < Idx(BUCKET_SIZE - 1)));
    assert!(!(Idx(BUCKET_SIZE - 1) < Idx(0)));
    assert!(Idx(5 * BUCKET_SIZE + 3) == Idx(5 * BUCKET_SIZE + 99_999));
    assert!(Idx(BUCKET_SIZE - 1) != Idx(BUCKET_SIZE));
    assert!(Idx(BUCKET_SIZE - 1) < Idx(BUCKET_SIZE));
    assert!(Idx(2 * BUCKET_SIZE) > Idx(BUCKET_SIZE + 7));
    assert_eq!(Idx(250_000).bucket(), 2);
}

#[test]
fn value_constructors() {
    let p = IdxValue::new_simple(Idx(7), Outcome::Success(3u8));
    assert_eq!((p.index.0, p.start.0, p.end.0), (7, 7, 7));
    let s = IdxValue::new(Idx(5), Idx(1), Idx(9), Outcome::<u8>::Failure);
    assert_eq!((s.index.0, s.start.0, s.end.0), (5, 1, 9));
    assert!(matches!(s.value, Outcome::Failure));
}

#[test]
fn leaf_appends_in_batch_order() {
    let p = speed_leaf();
    let s = leaf_init(&p);
    assert!(s.queue().is_empty());
    let b = BUCKET_SIZE;
    let s = leaf_apply(&p, s, &vec![ev(30, 1, 0), ev(10, -2, 0)]);
    let s = leaf_apply(&p, s, &vec![ev(b, 4, 0), ev(b + 3, 0, 0), ev(2 * b, 9, 0)]);
    assert_eq!(
        flat(s.queue()),
        vec![(30, Some(true)), (10, None), (b, Some(true)), (b + 3, None), (2 * b, Some(true))]
    );
}

#[test]
fn constant_leaf() {
    let p = constant(42i64, SeqIdx);
    let s = <SimplePattern<SeqIdx, _> as Pattern<Ev, SimplePatternState<i64>, i64>>::initial_state(&p);
    let s = <SimplePattern<SeqIdx, _> as Pattern<Ev, SimplePatternState<i64>, i64>>::apply(
        &p,
        s,
        &vec![ev(1, 5, 0), ev(2, -1, 0)],
    );
    assert_eq!(flat(s.queue()), vec![(1, Some(42)), (2, Some(42))]);
}

#[test]
fn field_leaf() {
    let p = field(String::from("speed"), SeqIdx, EvFields);
    let s = <SimplePattern<SeqIdx, _> as Pattern<Ev, SimplePatternState<i64>, i64>>::initial_state(&p);
    let s = <SimplePattern<SeqIdx, _> as Pattern<Ev, SimplePatternState<i64>, i64>>::apply(
        &p,
        s,
        &vec![ev(1, 5, 230), ev(2, -1, 200)],
    );
    assert_eq!(flat(s.queue()), vec![(1, Some(5)), (2, Some(-1))]);
    let p = field(String::from("voltage"), SeqIdx, EvFields);
    let s = <SimplePattern<SeqIdx, _> as Pattern<Ev, SimplePatternState<i64>, i64>>::initial_state(&p);
    let s = <SimplePattern<SeqIdx, _> as Pattern<Ev, SimplePatternState<i64>, i64>>::apply(
        &p,
        s,
        &vec![ev(1, 5, 230)],
    );
    assert_eq!(flat(s.queue()), vec![(1, Some(230))]);
}

#[test]
fn merge_join_pairs_by_bucket() {
    let b = BUCKET_SIZE;
    let first: VecDeque<IdxValue<bool>> = vec![
        pv(0, Outcome::Success(true)),
        pv(2 * b + 5, Outcome::Success(true)),
        pv(3 * b, Outcome::Failure),
        pv(6 * b, Outcome::Success(true)),
    ]
    .into();
    let second: VecDeque<IdxValue<bool>> = vec![
        pv(10, Outcome::Success(false)),
        pv(b, Outcome::Success(true)),
        pv(3 * b + 1, Outcome::Success(true)),
        pv(4 * b, Outcome::Success(true)),
    ]
    .into();
    let total: VecDeque<IdxValue<bool>> = vec![pv(0, Outcome::Success(true))].into();
    let (r1, r2, out) = couple_inner(first, second, total, &LogicalAnd);
    assert_eq!(
        flat(&out),
        vec![(0, Some(true)), (0, Some(false)), (3 * b, None)]
    );
    assert_eq!(flat(&r1), vec![(6 * b, Some(true))]);
    assert!(r2.is_empty());
}

#[test]
fn merge_join_keeps_unmatched_tail() {
    let b = BUCKET_SIZE;
    let first: VecDeque<IdxValue<bool>> =
        vec![pv(b, Outcome::Success(true)), pv(2 * b, Outcome::Success(true))].into();
    let second: VecDeque<IdxValue<bool>> = vec![pv(b + 1, Outcome::Success(true))].into();
    let (r1, r2, out) = couple_process_queues(first, second, VecDeque::new(), &LogicalAnd);
    assert_eq!(flat(&out), vec![(b, Some(true))]);
    assert_eq!(flat(&r1), vec![(2 * b, Some(true))]);
    assert!(r2.is_empty());
    let (r1, r2, out) = couple_inner(VecDeque::new(), r1, VecDeque::<IdxValue<bool>>::new(), &LogicalAnd);
    assert!(out.is_empty() && r1.is_empty());
    assert_eq!(flat(&r2), vec![(2 * b, Some(true))]);
}

#[test]
fn split_batches_match_one_batch() {
    let b = BUCKET_SIZE;
    let p = and_pattern();
    let events = vec![ev(1, 5, 100), ev(b, -1, 300), ev(2 * b, 3, 220), ev(3 * b, 2, 221)];
    let whole = and_apply(&p, and_init(&p), &events);
    let mut first_half = events;
    let second_half = first_half.split_off(2);
    let s = and_apply(&p, and_init(&p), &first_half);
    let split = and_apply(&p, s, &second_half);
    assert_eq!(flat(whole.queue()), flat(split.queue()));
    assert_eq!(flat(whole.left.queue()), flat(split.left.queue()));
    assert_eq!(flat(whole.right.queue()), flat(split.right.queue()));
    assert_eq!(
        flat(whole.queue()),
        vec![(1, Some(true)), (b, None), (2 * b, Some(true)), (3 * b, Some(false))]
    );
}

#[test]
fn and_failure_is_emitted() {
    let first: VecDeque<IdxValue<bool>> = vec![pv(7, Outcome::Failure)].into();
    let second: VecDeque<IdxValue<bool>> = vec![pv(8, Outcome::Success(true))].into();
    let (_, _, out) = couple_inner(first, second, VecDeque::new(), &LogicalAnd);
    assert_eq!(flat(&out), vec![(7, None)]);
    let first: VecDeque<IdxValue<bool>> = vec![pv(7, Outcome::Success(true))].into();
    let second: VecDeque<IdxValue<bool>> = vec![pv(8, Outcome::Failure)].into();
    let (_, _, out) = couple_inner(first, second, VecDeque::new(), &LogicalAnd);
    assert_eq!(flat(&out), vec![(7, None)]);
}

#[test]
fn empty_batch_changes_nothing() {
    let p = speed_leaf();
    let s = leaf_apply(&p, leaf_init(&p), &vec![ev(1, 5, 0), ev(2, -1, 0)]);
    let before = flat(s.queue());
    let s = leaf_apply(&p, s, &vec![]);
    assert_eq!(flat(s.queue()), before);

    let b = BUCKET_SIZE;
    let p = and_pattern();
    let s = and_apply(&p, and_init(&p), &vec![ev(1, 5, 100), ev(b, 1, 100)]);
    let before = (flat(s.queue()), flat(s.left.queue()), flat(s.right.queue()));
    let s = and_apply(&p, s, &vec![]);
    assert_eq!((flat(s.queue()), flat(s.left.queue()), flat(s.right.queue())), before);
}

#[test]
fn speed_and_voltage_scenario() {
    let a = speed_leaf();
    let s = leaf_apply(&a, leaf_init(&a), &vec![ev(1, 5, 200), ev(2, -1, 230)]);
    assert_eq!(flat(s.queue()), vec![(1, Some(true)), (2, None)]);

    let p = and_pattern();
    let s = and_apply(&p, and_init(&p), &vec![ev(1, 5, 200), ev(2, -1, 230)]);
    assert_eq!(flat(s.queue()), vec![(1, Some(true)), (2, None)]);
    let s = and_apply(&p, and_init(&p), &vec![ev(1, 5, 230), ev(2, -1, 100)]);
    assert_eq!(flat(s.queue()), vec![(1, Some(false)), (2, None)]);
}

#[test]
fn queue_replacement() {
    let p = and_pattern();
    let mut s = and_apply(&p, and_init(&p), &vec![ev(1, 5, 100)]);
    let drained = s.take_queue();
    assert_eq!(flat(&drained), vec![(1, Some(true))]);
    assert!(s.queue().is_empty());
    let s = s.copy_with_queue(vec![pv(9, Outcome::Failure)].into());
    assert_eq!(flat(s.queue()), vec![(9, None)]);
}

#[test]
fn interval_and_window_values() {
    let t = Interval::Time(TimeInterval(10, 20));
    let r = Interval::Range(RangeInterval(0, 5));
    assert!(matches!(t, Interval::Time(TimeInterval(10, 20))));
    assert!(matches!(r, Interval::Range(RangeInterval(0, 5))));
    let w = Window(180);
    assert_eq!(w.0, 180);
}

#[test]
fn checked_leaf_accepts_ordered_batch() {
    let b = BUCKET_SIZE;
    let p = speed_leaf();
    let s = leaf_apply(&p, leaf_init(&p), &vec![ev(b + 5, 1, 0)]);
    let s = match p.apply_checked(s, &vec![ev(b, 1, 0), ev(2 * b, -1, 0)]) {
        Ok(s) => s,
        Err(_) => panic!("an ordered batch was refused"),
    };
    assert_eq!(flat(s.queue()), vec![(b + 5, Some(true)), (b, Some(true)), (2 * b, None)]);
}

#[test]
fn checked_leaf_refuses_step_back() {
    let b = BUCKET_SIZE;
    let p = speed_leaf();
    let s = leaf_apply(&p, leaf_init(&p), &vec![ev(2 * b, 1, 0)]);
    match p.apply_checked(s, &vec![ev(2 * b + 1, 1, 0), ev(3 * b, 1, 0), ev(b, 1, 0)]) {
        Ok(_) => panic!("a batch out of order was accepted"),
        Err(e) => {
            assert_eq!(e.position, 2);
            assert_eq!(flat(e.state.queue()), vec![(2 * b, Some(true))]);
        }
    }
    let s = leaf_init(&p);
    match p.apply_checked(s, &vec![ev(b, 1, 0), ev(0, 1, 0)]) {
        Ok(_) => panic!("a batch out of order was accepted"),
        Err(e) => {
            assert_eq!(e.position, 1);
            assert!(e.state.queue().is_empty());
        }
    }
}

#[test]
fn couple_starts_from_empty_children() {
    let p = and_pattern();
    let s = and_init(&p);
    assert!(s.queue().is_empty());
    assert!(s.left.queue().is_empty());
    assert!(s.right.queue().is_empty());
}

#[test]
fn checked_couple_accepts_and_refuses() {
    let b = BUCKET_SIZE;
    let p = and_pattern();
    let s = and_init(&p);
    assert!(<AndPattern as Pattern<Ev, AndState, bool>>::check_order(&p, &s, &vec![ev(1, 5, 200), ev(b, 1, 1)]));
    let s = match p.apply_checked(s, &vec![ev(1, 5, 200), ev(2, -1, 230)]) {
        Ok(s) => s,
        Err(_) => panic!("an ordered batch was refused"),
    };
    assert_eq!(flat(s.queue()), vec![(1, Some(true)), (2, None)]);
    let events = vec![ev(3 * b, 1, 1), ev(b, 1, 1)];
    assert!(!<AndPattern as Pattern<Ev, AndState, bool>>::check_order(&p, &s, &events));
    match p.apply_checked(s, &events) {
        Ok(_) => panic!("a batch out of order was accepted"),
        Err(s) => {
            assert_eq!(flat(s.queue()), vec![(1, Some(true)), (2, None)]);
            assert!(s.left.queue().is_empty() && s.right.queue().is_empty());
        }
    }
}

#[test]
fn leaf_first_step_back() {
    let b = BUCKET_SIZE;
    let p = speed_leaf();
    let q: VecDeque<IdxValue<bool>> = vec![pv(2 * b, Outcome::Failure)].into();
    assert_eq!(p.first_step_back(&q, &vec![ev(b, 1, 0)]), Some(0));
    assert_eq!(p.first_step_back(&q, &vec![ev(2 * b + 9, 1, 0), ev(3 * b, 1, 0)]), None);
    assert_eq!(p.first_step_back(&VecDeque::<IdxValue<bool>>::new(), &vec![]), None);
}
