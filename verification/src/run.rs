//! A run of the engine, end to end, and the laws it obeys.
//!
//! The entry source delivers every non-excluded entry exactly once,
//! partitioned among workers in an order nobody controls. The
//! functions here drive the visitor protocol of [`crate::reducer`]
//! over such a delivery held as plain values, so the whole
//! orchestration — visit, cooperative cancellation, retirement fold,
//! the single final read — is itself verified, and a test can run it
//! without a filesystem.
//!
//! [`spec_run`] is the mathematical account of a run: the first
//! error (kind and offending path) if any delivered entry fails,
//! otherwise the maximum timestamp. The laws at the bottom say that
//! this outcome is deterministic under repartitioning and
//! reordering, monotone at every fold point, exactly the maximum of
//! the delivered entries, fail-fast, and the same on a second,
//! identical run.

use vstd::prelude::*;
use crate::errors::{ErrorKind, RunError};
use crate::reducer::{max_u64, visit_result, ErrorSignal, MtimeVisitor, SharedMax, Step, Visit, finish};

verus! {

/// What a run reports: the maximum timestamp, or the first error's
/// kind and offending path.
pub type Outcome = Result<u64, (ErrorKind, Seq<char>)>;

/// The largest element of a sequence of timestamps, the epoch (zero)
/// for an empty one.
pub open spec fn seq_max(s: Seq<u64>) -> u64
    decreases s.len(),
{
    if s.len() == 0 {
        0u64
    } else {
        max_u64(s.first(), seq_max(s.drop_first()))
    }
}

/// A run over delivered entries, carrying the running maximum:
/// stops at the first failing entry, else reports the accumulated
/// maximum.
pub open spec fn spec_run_acc(events: Seq<Visit>, acc: u64) -> Outcome
    decreases events.len(),
{
    if events.len() == 0 {
        Ok(acc)
    } else {
        match visit_result(events.first()) {
            Ok(t) => spec_run_acc(events.drop_first(), max_u64(acc, t)),
            Err(e) => Err(e),
        }
    }
}

/// The outcome of a run over the delivered entries, from the epoch.
pub open spec fn spec_run(events: Seq<Visit>) -> Outcome {
    spec_run_acc(events, 0u64)
}

/// Whether every delivered entry yields a timestamp.
pub open spec fn all_ok(events: Seq<Visit>) -> bool {
    forall|i: int| 0 <= i < events.len() ==> (#[trigger] visit_result(events[i])) is Ok
}

/// The timestamps of the delivered entries, in delivery order.
pub open spec fn event_times(events: Seq<Visit>) -> Seq<u64> {
    events.map_values(
        |v: Visit|
            match visit_result(v) {
                Ok(t) => t,
                Err(_) => 0u64,
            },
    )
}

/// How an executed run's result realizes the mathematical outcome:
/// the same maximum, or an error of the same kind on the same path.
pub open spec fn outcome_matches(s: Outcome, r: Result<u64, RunError>) -> bool {
    match (s, r) {
        (Ok(a), Ok(b)) => a == b,
        (Err((k, p)), Err(e)) => e.kind == k && e.path@ == p,
        _ => false,
    }
}

/// Drive one worker over the whole delivery, then retire it and read
/// the aggregate once: the executable account of a run, returning
/// exactly the outcome [`spec_run`] describes.
pub fn run_single_worker(events: &Vec<Visit>) -> (r: Result<u64, RunError>)
    ensures
        outcome_matches(spec_run(events@), r),
{
    let mut shared = SharedMax::new();
    let mut errors = ErrorSignal::new();
    let mut visitor = MtimeVisitor::new();
    let mut i: usize = 0;
    proof {
        assert(events@.skip(0) =~= events@);
    }
    while i < events.len()
        invariant
            i <= events@.len(),
            shared.max == 0,
            errors.err is None,
            spec_run_acc(events@.skip(i as int), visitor.thread_max_mtime) == spec_run(events@),
        decreases events@.len() - i,
    {
        proof {
            assert(events@.skip(i as int).first() == events@[i as int]);
            assert(events@.skip(i as int).drop_first() =~= events@.skip(i as int + 1));
        }
        match visitor.visit(&events[i], &mut errors) {
            Step::Continue => {
                i += 1;
            },
            Step::Quit => {
                visitor.retire(&mut shared);
                return finish(&shared, errors);
            },
        }
    }
    proof {
        assert(events@.skip(i as int) =~= Seq::<Visit>::empty());
        assert(spec_run_acc(events@.skip(i as int), visitor.thread_max_mtime) == Ok::<
            u64,
            (ErrorKind, Seq<char>),
        >(visitor.thread_max_mtime));
        assert(spec_run(events@) == Ok::<u64, (ErrorKind, Seq<char>)>(visitor.thread_max_mtime));
    }
    visitor.retire(&mut shared);
    finish(&shared, errors)
}

/// Whether every entry of every partition yields a timestamp.
pub open spec fn parts_all_ok(parts: Seq<Seq<Visit>>) -> bool {
    forall|i: int| 0 <= i < parts.len() ==> all_ok(#[trigger] parts[i])
}

/// The timestamps of each partition, partition by partition.
pub open spec fn parts_times(parts: Seq<Seq<Visit>>) -> Seq<Seq<u64>> {
    parts.map_values(|p: Seq<Visit>| event_times(p))
}

/// The partitions as mathematical sequences.
pub open spec fn parts_view(parts: Seq<Vec<Visit>>) -> Seq<Seq<Visit>> {
    parts.map_values(|p: Vec<Visit>| p@)
}

/// Whether some delivered entry of some partition fails with this
/// kind on this path.
pub open spec fn some_err_of(parts: Seq<Seq<Visit>>, k: ErrorKind, p: Seq<char>) -> bool {
    exists|i: int, j: int|
        0 <= i < parts.len() && 0 <= j < parts[i].len() && visit_result(parts[i][j]) == Err::<
            u64,
            (ErrorKind, Seq<char>),
        >((k, p))
}

/// Drive one worker per partition, each folding at retirement,
/// honoring the cancellation signal at every dispatch point. When
/// every entry succeeds the result is the maximum over all
/// partitions — whatever the partitioning; when any entry fails the
/// run fails with the kind and path of a failing entry.
pub fn run_partitioned(parts: &Vec<Vec<Visit>>) -> (r: Result<u64, RunError>)
    ensures
        parts_all_ok(parts_view(parts@)) ==> r == Ok::<u64, RunError>(
            seq_max(parts_times(parts_view(parts@)).flatten()),
        ),
        !parts_all_ok(parts_view(parts@)) ==> (r matches Err(e) && some_err_of(
            parts_view(parts@),
            e.kind,
            e.path@,
        )),
{
    let ghost pv = parts_view(parts@);
    let ghost pt = parts_times(pv);
    let mut shared = SharedMax::new();
    let mut errors = ErrorSignal::new();
    let mut w: usize = 0;
    proof {
        assert(pt.take(0).flatten() =~= Seq::<u64>::empty());
    }
    while w < parts.len()
        invariant
            w <= parts@.len(),
            pv == parts_view(parts@),
            pt == parts_times(pv),
            errors.err matches Some(e) ==> some_err_of(pv, e.kind, e.path@),
            errors.err is None ==> forall|i: int| 0 <= i < w ==> all_ok(#[trigger] pv[i]),
            errors.err is None ==> shared.max == seq_max(pt.take(w as int).flatten()),
        decreases parts@.len() - w,
    {
        let part: &Vec<Visit> = &parts[w];
        let mut visitor = MtimeVisitor::new();
        let mut j: usize = 0;
        let mut stopped = false;
        proof {
            assert(part@.take(0) =~= Seq::<Visit>::empty());
            assert(event_times(Seq::<Visit>::empty()) =~= Seq::<u64>::empty());
        }
        while j < part.len() && !stopped
            invariant
                w < parts@.len(),
                j <= part@.len(),
                part@ == pv[w as int],
                pv == parts_view(parts@),
                pt == parts_times(pv),
                errors.err matches Some(e) ==> some_err_of(pv, e.kind, e.path@),
                stopped ==> errors.err is Some,
                errors.err is None ==> forall|i: int| 0 <= i < w ==> all_ok(#[trigger] pv[i]),
                errors.err is None ==> shared.max == seq_max(pt.take(w as int).flatten()),
                errors.err is None ==> all_ok(part@.take(j as int)),
                errors.err is None ==> visitor.thread_max_mtime == seq_max(
                    event_times(part@.take(j as int)),
                ),
            decreases part@.len() - j, if stopped { 0int } else { 1int },
        {
            if errors.is_set() {
                // The cooperative stop: another worker failed, visit
                // nothing further.
                stopped = true;
            } else {
                let ghost prev = part@.take(j as int);
                match visitor.visit(&part[j], &mut errors) {
                    Step::Continue => {
                        proof {
                            let t = visit_result(part@[j as int])->Ok_0;
                            assert(part@.take(j as int + 1) =~= prev.push(part@[j as int]));
                            assert(event_times(prev.push(part@[j as int])) =~= event_times(
                                prev,
                            ).push(t));
                            lemma_seq_max_push(event_times(prev), t);
                            assert forall|x: int| 0 <= x < j as int + 1 implies (
                            #[trigger] visit_result(part@.take(j as int + 1)[x])) is Ok by {
                                if x < j as int {
                                    assert(visit_result(prev[x]) is Ok);
                                }
                            }
                        }
                        j += 1;
                    },
                    Step::Quit => {
                        proof {
                            let kp = visit_result(part@[j as int])->Err_0;
                            assert(visit_result(pv[w as int][j as int]) == Err::<
                                u64,
                                (ErrorKind, Seq<char>),
                            >(kp));
                        }
                        stopped = true;
                    },
                }
            }
        }
        proof {
            if errors.err is None {
                assert(!stopped);
                assert(j == part@.len());
                assert(part@.take(j as int) =~= part@);
                assert(pt.take(w as int + 1) =~= pt.take(w as int).push(pt[w as int]));
                pt.take(w as int).lemma_flatten_push(pt[w as int]);
                lemma_seq_max_concat(pt.take(w as int).flatten(), pt[w as int]);
                assert(pt[w as int] == event_times(part@));
            }
        }
        visitor.retire(&mut shared);
        proof {
            if errors.err is None {
                assert forall|i: int| 0 <= i < w as int + 1 implies all_ok(#[trigger] pv[i]) by {
                    if i == w as int {
                        assert(all_ok(part@));
                    }
                }
            }
        }
        w += 1;
    }
    proof {
        assert(pt.take(w as int) =~= pt);
        if errors.err is Some {
            let e = errors.err->0;
            assert(!parts_all_ok(pv)) by {
                let (i, j) = choose|i: int, j: int|
                    0 <= i < pv.len() && 0 <= j < pv[i].len() && visit_result(pv[i][j]) == Err::<
                        u64,
                        (ErrorKind, Seq<char>),
                    >((e.kind, e.path@));
                assert(!(visit_result(pv[i][j]) is Ok));
            }
        }
    }
    finish(&shared, errors)
}

/// Every element is bounded by the sequence maximum.
proof fn lemma_seq_max_bound(s: Seq<u64>, i: int)
    requires
        0 <= i < s.len(),
    ensures
        s[i] <= seq_max(s),
    decreases s.len(),
{
    if i > 0 {
        lemma_seq_max_bound(s.drop_first(), i - 1);
    }
}

/// A nonempty sequence attains its maximum.
proof fn lemma_seq_max_contains(s: Seq<u64>)
    requires
        s.len() > 0,
    ensures
        s.contains(seq_max(s)),
    decreases s.len(),
{
    if s.len() == 1 {
        assert(s[0] == seq_max(s));
    } else if s.first() >= seq_max(s.drop_first()) {
        assert(s[0] == seq_max(s));
    } else {
        lemma_seq_max_contains(s.drop_first());
        let k = choose|k: int|
            0 <= k < s.drop_first().len() && s.drop_first()[k] == seq_max(s.drop_first());
        assert(s[k + 1] == seq_max(s));
    }
}

/// Appending one timestamp raises the maximum to it at most.
proof fn lemma_seq_max_push(s: Seq<u64>, x: u64)
    ensures
        seq_max(s.push(x)) == max_u64(seq_max(s), x),
    decreases s.len(),
{
    if s.len() == 0 {
        assert(s.push(x).first() == x);
        assert(s.push(x).drop_first() =~= Seq::<u64>::empty());
        assert(seq_max(Seq::<u64>::empty()) == 0u64);
    } else {
        assert(s.push(x).first() == s.first());
        assert(s.push(x).drop_first() =~= s.drop_first().push(x));
        lemma_seq_max_push(s.drop_first(), x);
    }
}

/// The maximum of a concatenation is the larger of the two maxima —
/// folding worker by worker loses nothing against folding all at
/// once.
proof fn lemma_seq_max_concat(a: Seq<u64>, b: Seq<u64>)
    ensures
        seq_max(a + b) == max_u64(seq_max(a), seq_max(b)),
    decreases a.len(),
{
    if a.len() == 0 {
        assert(a + b =~= b);
    } else {
        assert((a + b).first() == a.first());
        assert((a + b).drop_first() =~= a.drop_first() + b);
        lemma_seq_max_concat(a.drop_first(), b);
    }
}

/// Sequences holding the same timestamps, however ordered, have the
/// same maximum.
pub proof fn lemma_seq_max_multiset(s1: Seq<u64>, s2: Seq<u64>)
    requires
        s1.to_multiset() == s2.to_multiset(),
    ensures
        seq_max(s1) == seq_max(s2),
{
    broadcast use vstd::seq_lib::group_to_multiset_ensures;

    assert(s1.len() == s1.to_multiset().len());
    assert(s2.len() == s2.to_multiset().len());
    if s1.len() > 0 {
        lemma_seq_max_contains(s1);
        lemma_seq_max_contains(s2);
        assert(s1.to_multiset().count(seq_max(s1)) > 0);
        assert(s2.contains(seq_max(s1)));
        let k1 = choose|k: int| 0 <= k < s2.len() && s2[k] == seq_max(s1);
        lemma_seq_max_bound(s2, k1);
        assert(s2.to_multiset().count(seq_max(s2)) > 0);
        assert(s1.contains(seq_max(s2)));
        let k2 = choose|k: int| 0 <= k < s1.len() && s1[k] == seq_max(s2);
        lemma_seq_max_bound(s1, k2);
    }
}

/// Determinism: two deliveries of the same timestamps — any
/// repartitioning among workers, any visitation order within each —
/// reduce to the same maximum.
pub proof fn lemma_determinism(parts1: Seq<Seq<u64>>, parts2: Seq<Seq<u64>>)
    requires
        parts1.flatten().to_multiset() == parts2.flatten().to_multiset(),
    ensures
        seq_max(parts1.flatten()) == seq_max(parts2.flatten()),
{
    lemma_seq_max_multiset(parts1.flatten(), parts2.flatten());
}

/// The shared maximum after a sequence of retirement folds, starting
/// from some observed value.
pub open spec fn shared_after(init: u64, locals: Seq<u64>) -> u64
    decreases locals.len(),
{
    if locals.len() == 0 {
        init
    } else {
        max_u64(shared_after(init, locals.drop_last()), locals.last())
    }
}

/// Monotonicity: at every fold point of a run the shared maximum is
/// no smaller than at any earlier fold point.
pub proof fn lemma_shared_max_monotone(init: u64, locals: Seq<u64>, i: int, j: int)
    requires
        0 <= i <= j <= locals.len(),
    ensures
        shared_after(init, locals.take(i)) <= shared_after(init, locals.take(j)),
    decreases j - i,
{
    if i < j {
        lemma_shared_max_monotone(init, locals, i, j - 1);
        assert(locals.take(j).drop_last() =~= locals.take(j - 1));
        assert(locals.take(j).len() == j);
    }
}

proof fn lemma_fail_fast_acc(events: Seq<Visit>, acc: u64)
    requires
        exists|i: int| 0 <= i < events.len() && (#[trigger] visit_result(events[i])) is Err,
    ensures
        spec_run_acc(events, acc) is Err,
    decreases events.len(),
{
    let i = choose|i: int| 0 <= i < events.len() && (#[trigger] visit_result(events[i])) is Err;
    if visit_result(events.first()) is Ok {
        assert(visit_result(events.drop_first()[i - 1]) is Err);
        let t = visit_result(events.first())->Ok_0;
        lemma_fail_fast_acc(events.drop_first(), max_u64(acc, t));
    }
}

/// Fail-fast: a run over a delivery in which any single entry fails
/// reports failure, whatever every other worker computed.
pub proof fn lemma_fail_fast(events: Seq<Visit>)
    requires
        exists|i: int| 0 <= i < events.len() && (#[trigger] visit_result(events[i])) is Err,
    ensures
        spec_run(events) is Err,
{
    lemma_fail_fast_acc(events, 0u64);
}

proof fn lemma_run_ok_acc(events: Seq<Visit>, acc: u64)
    requires
        all_ok(events),
    ensures
        spec_run_acc(events, acc) == Ok::<u64, (ErrorKind, Seq<char>)>(
            max_u64(acc, seq_max(event_times(events))),
        ),
    decreases events.len(),
{
    if events.len() == 0 {
        assert(event_times(events) =~= Seq::<u64>::empty());
    } else {
        let t = visit_result(events.first())->Ok_0;
        assert(visit_result(events[0]) is Ok);
        assert(event_times(events).first() == t);
        assert(event_times(events.drop_first()) =~= event_times(events).drop_first());
        assert(all_ok(events.drop_first())) by {
            assert forall|x: int| 0 <= x < events.drop_first().len() implies (
            #[trigger] visit_result(events.drop_first()[x])) is Ok by {
                assert(visit_result(events[x + 1]) is Ok);
            }
        }
        lemma_run_ok_acc(events.drop_first(), max_u64(acc, t));
    }
}

/// Only delivered entries count: when every delivered entry yields a
/// timestamp, the outcome is exactly their maximum. An entry the
/// ignore rules held back is never delivered, so its timestamp —
/// however large — cannot influence the result.
pub proof fn lemma_result_is_max_of_delivered(events: Seq<Visit>)
    requires
        all_ok(events),
    ensures
        spec_run(events) == Ok::<u64, (ErrorKind, Seq<char>)>(seq_max(event_times(events))),
{
    lemma_run_ok_acc(events, 0u64);
}

/// Idempotence: a second run over the same delivery — an unchanged
/// tree scanned again — reports the same outcome as the first.
pub proof fn lemma_idempotent(first_run: Seq<Visit>, second_run: Seq<Visit>)
    requires
        first_run == second_run,
    ensures
        spec_run(first_run) == spec_run(second_run),
{
}

} // verus!
