use orbweaver::repeat::{pause_millis, RepeatWorker, WorkerStep, DELAY, DELTA};

fn play(code: u16, cancelled_in: usize) -> Vec<(u16, i32)> {
    let mut worker = RepeatWorker::new(code);
    let mut emitted = Vec::new();
    let mut turn = 0;
    loop {
        emitted.push(worker.event());
        match worker.advance(turn == cancelled_in) {
            WorkerStep::Pause { millis } => assert!((50..75).contains(&millis)),
            WorkerStep::Release { code } => {
                emitted.push((code, 0));
                return emitted;
            }
            WorkerStep::Stop => return emitted,
        }
        turn += 1;
    }
}

#[test]
fn pause_is_the_delay_and_the_jitter() {
    assert_eq!(DELAY, 50);
    assert_eq!(DELTA, 25);
    assert_eq!(pause_millis(0), 50);
    assert_eq!(pause_millis(1), 51);
    assert_eq!(pause_millis(24), 74);
}

#[test]
fn new_worker_begins_with_a_press() {
    let worker = RepeatWorker::new(57);
    assert_eq!(worker, RepeatWorker { code: 57, down: true });
    assert_eq!(worker.event(), (57, 1));
}

#[test]
fn worker_takes_turns_between_press_and_release() {
    let mut worker = RepeatWorker::new(57);
    assert_eq!(worker.advance_with(false, 0), WorkerStep::Pause { millis: 50 });
    assert_eq!(worker.event(), (57, 0));
    assert_eq!(worker.advance_with(false, 24), WorkerStep::Pause { millis: 74 });
    assert_eq!(worker.event(), (57, 1));
    assert_eq!(worker.advance_with(false, 7), WorkerStep::Pause { millis: 57 });
    assert_eq!(worker.event(), (57, 0));
    assert_eq!(worker.code, 57);
}

#[test]
fn worker_cancelled_after_a_press_releases_the_key() {
    let mut worker = RepeatWorker::new(57);
    assert_eq!(worker.advance_with(true, 3), WorkerStep::Release { code: 57 });
    assert_eq!(worker, RepeatWorker { code: 57, down: false });
}

#[test]
fn worker_cancelled_after_a_release_just_stops() {
    let mut worker = RepeatWorker::new(57);
    worker.advance_with(false, 3);
    assert_eq!(worker.advance_with(true, 3), WorkerStep::Stop);
    assert_eq!(worker, RepeatWorker { code: 57, down: false });
    let mut other = RepeatWorker { code: 30, down: false };
    assert_eq!(other.advance(true), WorkerStep::Stop);
}

#[test]
fn drawn_pauses_stay_in_their_range() {
    let mut worker = RepeatWorker::new(30);
    let mut seen = [false; 25];
    for turn in 0..20000 {
        assert_eq!(worker.event(), (30, if turn % 2 == 0 { 1 } else { 0 }));
        match worker.advance(false) {
            WorkerStep::Pause { millis } => {
                assert!(millis >= 50 && millis < 75, "{}", millis);
                seen[(millis - 50) as usize] = true;
            }
            other => panic!("{:?}", other),
        }
    }
    assert!(seen.iter().filter(|hit| **hit).count() > 1);
}

#[test]
fn cancelled_worker_always_ends_with_a_release() {
    for cancelled_in in 0..40 {
        let emitted = play(44, cancelled_in);
        assert_eq!(emitted.last(), Some(&(44, 0)));
        assert!(emitted.len() == cancelled_in + 1 || emitted.len() == cancelled_in + 2);
        for (turn, event) in emitted.iter().take(cancelled_in + 1).enumerate() {
            assert_eq!(*event, (44, if turn % 2 == 0 { 1 } else { 0 }));
        }
    }
}

#[test]
fn worker_cancelled_at_once_presses_and_releases() {
    assert_eq!(play(44, 0), vec![(44, 1), (44, 0)]);
    assert_eq!(play(44, 1), vec![(44, 1), (44, 0)]);
    assert_eq!(play(44, 2), vec![(44, 1), (44, 0), (44, 1), (44, 0)]);
    assert_eq!(play(44, 3), vec![(44, 1), (44, 0), (44, 1), (44, 0)]);
}
