use futures_concurrency::race::{AggregateError, Outcome, RaceAction, RaceCore};

/// How an operation behaves when driven: how many times it is not ready
/// first, and then what it ends with (`None`: it never ends).
#[derive(Clone)]
struct Op<T, E> {
    pending_for: usize,
    end: Option<Result<T, E>>,
}

fn never<T, E>() -> Op<T, E> {
    Op { pending_for: 0, end: None }
}

fn ok_after<T, E>(n: usize, v: T) -> Op<T, E> {
    Op { pending_for: n, end: Some(Ok(v)) }
}

fn err_after<T, E>(n: usize, e: E) -> Op<T, E> {
    Op { pending_for: n, end: Some(Err(e)) }
}

fn poll_op<T: Clone, E: Clone>(op: &mut Op<T, E>) -> Outcome<T, E> {
    if op.pending_for > 0 {
        op.pending_for -= 1;
        return Outcome::Pending;
    }
    match &op.end {
        Some(Ok(v)) => Outcome::Success(v.clone()),
        Some(Err(e)) => Outcome::Failure(e.clone()),
        None => Outcome::Pending,
    }
}

/// Drives a race over `ops` until it ends, for at most `rounds` drives.
/// Returns the result and the indices driven, in order.
fn run<T: Clone, E: Clone>(
    mut ops: Vec<Op<T, E>>,
    rounds: usize,
) -> (Option<Result<T, AggregateError<E>>>, Vec<usize>) {
    let mut core: RaceCore<E> = RaceCore::new(ops.len());
    let mut driven = Vec::new();
    for _ in 0..rounds {
        let mut action = core.drive::<T>();
        loop {
            match action {
                RaceAction::Drive(i) => {
                    driven.push(i);
                    let outcome = poll_op(&mut ops[i]);
                    action = core.report(outcome);
                }
                RaceAction::Won(v) => return (Some(Ok(v)), driven),
                RaceAction::AllFailed(agg) => return (Some(Err(agg)), driven),
                RaceAction::Suspend => break,
            }
        }
    }
    (None, driven)
}

#[test]
fn race_ok_1() {
    let (res, _) = run::<&str, String>(vec![ok_after(0, "world")], 10);
    assert!(matches!(res, Some(Ok("world"))));
}

#[test]
fn race_ok_2() {
    let (res, _) = run::<&str, String>(vec![never(), ok_after(0, "world")], 10);
    assert!(matches!(res, Some(Ok("world"))));
}

#[test]
fn race_ok_3() {
    let (res, _) = run::<&str, String>(vec![never(), ok_after(0, "hello"), ok_after(0, "world")], 10);
    assert!(matches!(res, Some(Ok("hello")) | Some(Ok("world"))));
}

#[test]
fn race_ok_err() {
    let (res, _) = run::<(), &str>(vec![err_after(0, "hello"), err_after(0, "world")], 10);
    let errors = match res {
        Some(Err(agg)) => agg,
        _ => panic!("the race should have been lost"),
    };
    assert_eq!(*errors.get(0), "hello");
    assert_eq!(*errors.get(1), "world");
}

#[test]
fn race_errors_keep_positions_whatever_the_order() {
    // The last operation fails first, the first one last.
    let ops = vec![err_after(3, "a"), err_after(1, "b"), err_after(0, "c")];
    let (res, _) = run::<u8, &str>(ops, 10);
    match res {
        Some(Err(agg)) => assert_eq!(agg.into_vec(), vec!["a", "b", "c"]),
        _ => panic!("the race should have been lost"),
    }
}

#[test]
fn race_success_after_failures_wins() {
    let ops = vec![err_after(0, 1u8), ok_after(2, 42u32), err_after(1, 3u8)];
    let (res, _) = run(ops, 10);
    assert!(matches!(res, Some(Ok(42))));
}

#[test]
fn race_is_decisive() {
    // Both succeed in the same round: only the first one driven wins, and
    // the race drives nothing after the win.
    let ops = vec![ok_after(0, 1u32), ok_after(0, 2u32)];
    let (res, driven) = run::<u32, ()>(ops, 10);
    assert!(matches!(res, Some(Ok(1))));
    assert_eq!(driven, vec![0]);
}

#[test]
fn race_is_deterministic() {
    let ops = vec![never(), err_after(2, "x"), ok_after(3, 7u8)];
    let first = run::<u8, &str>(ops.clone(), 10);
    let second = run::<u8, &str>(ops, 10);
    assert!(matches!(first.0, Some(Ok(7))));
    assert!(matches!(second.0, Some(Ok(7))));
    assert_eq!(first.1, second.1);
}

#[test]
fn race_rounds_rotate_and_skip_failed() {
    let ops = vec![never::<u8, u8>(), err_after(0, 9u8), never()];
    let (res, driven) = run(ops, 3);
    assert!(res.is_none());
    // Round one starts at 0; round two at 1, where the failed one is skipped;
    // round three at 2.
    assert_eq!(driven, vec![0, 1, 2, 2, 0, 2, 0]);
}

#[test]
fn race_of_nothing_is_lost_at_once() {
    let (res, driven) = run::<u8, u8>(Vec::new(), 1);
    match res {
        Some(Err(agg)) => assert_eq!(agg.len(), 0),
        _ => panic!("an empty race is lost"),
    }
    assert!(driven.is_empty());
}

#[test]
fn race_pending_suspends() {
    let mut core: RaceCore<u8> = RaceCore::new(1);
    assert!(matches!(core.drive::<u8>(), RaceAction::Drive(0)));
    assert!(matches!(core.report::<u8>(Outcome::Pending), RaceAction::Suspend));
    assert!(!core.finished());
    assert!(matches!(core.drive::<u8>(), RaceAction::Drive(0)));
    assert!(matches!(core.report::<u8>(Outcome::Success(5)), RaceAction::Won(5)));
    assert!(core.finished());
}
