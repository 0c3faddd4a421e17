use harvest::coordinator::{Coordinator, Move, Outcome};

#[test]
fn coordinator_fills_the_slots_then_waits() {
    let mut run = Coordinator::new(5, 2);
    assert_eq!(run.next_move(), Move::Start(0));
    assert_eq!(run.next_move(), Move::Start(1));
    assert_eq!(run.next_move(), Move::Wait);
    assert_eq!(run.next_move(), Move::Wait);
    run.complete(Outcome::Fetched);
    assert_eq!(run.next_move(), Move::Start(2));
    assert_eq!(run.next_move(), Move::Wait);
}

#[test]
fn coordinator_is_done_when_all_have_finished() {
    let mut run = Coordinator::new(3, 8);
    assert_eq!(run.next_move(), Move::Start(0));
    assert_eq!(run.next_move(), Move::Start(1));
    assert_eq!(run.next_move(), Move::Start(2));
    assert_eq!(run.next_move(), Move::Wait);
    run.complete(Outcome::Fetched);
    run.complete(Outcome::Failed);
    assert_eq!(run.next_move(), Move::Wait);
    run.complete(Outcome::Skipped);
    assert_eq!(run.next_move(), Move::Done);
    assert_eq!(run.next_move(), Move::Done);
    assert_eq!(
        run,
        Coordinator { limit: 8, total: 3, started: 3, finished: 3, failed: 1 }
    );
}

#[test]
fn coordinator_without_partitions_is_done_at_once() {
    let mut run = Coordinator::new(0, 4);
    assert_eq!(run.next_move(), Move::Done);
}

#[test]
fn coordinator_never_runs_more_than_the_limit() {
    let mut run = Coordinator::new(40, 3);
    let mut running = 0usize;
    let mut started = Vec::new();
    loop {
        match run.next_move() {
            Move::Start(place) => {
                running += 1;
                started.push(place);
                assert!(running <= 3);
            }
            Move::Wait => {
                assert!(running > 0);
                running -= 1;
                run.complete(if started.len() % 7 == 0 { Outcome::Failed } else { Outcome::Fetched });
            }
            Move::Done => break,
        }
    }
    assert_eq!(running, 0);
    assert_eq!(started, (0..40).collect::<Vec<usize>>());
    assert_eq!(run.finished, 40);
    assert!(run.failed > 0 && run.failed < 40);
}

#[test]
fn a_failure_stops_no_other_partition() {
    let mut run = Coordinator::new(3, 1);
    assert_eq!(run.next_move(), Move::Start(0));
    run.complete(Outcome::Failed);
    assert_eq!(run.next_move(), Move::Start(1));
    run.complete(Outcome::Fetched);
    assert_eq!(run.next_move(), Move::Start(2));
    run.complete(Outcome::Fetched);
    assert_eq!(run.next_move(), Move::Done);
    assert_eq!(run.failed, 1);
}
