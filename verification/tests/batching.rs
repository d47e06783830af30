use gif_editor_core::batch::{Action, Event, ExtractionJob, JobState};

fn run_to_end(job: &mut ExtractionJob, present: &[usize]) -> (Vec<(usize, usize)>, Vec<Action>) {
    let mut extracted = Vec::new();
    let mut actions = Vec::new();
    loop {
        let action = job.handle(Event::Poll);
        actions.push(action);
        match action {
            Action::Batch { first, last } => {
                let answer = if present.contains(&first) {
                    job.handle(Event::BatchPresent)
                } else {
                    extracted.push((first, last));
                    job.handle(Event::BatchExtracted)
                };
                actions.push(answer);
            }
            Action::Wait => panic!("not paused"),
            _ => break,
        }
    }
    (extracted, actions)
}

#[test]
fn new_job_is_idle() {
    let mut job = ExtractionJob::new();
    assert_eq!(job.state(), JobState::Idle);
    assert_eq!(job.completed_units(), 0);
    assert_eq!(job.total_units(), 0);
    assert!(!job.is_paused());
    assert!(!job.is_cancelled());
    assert_eq!(job.handle(Event::Poll), Action::Nothing);
    assert_eq!(job.handle(Event::BatchExtracted), Action::Nothing);
    assert_eq!(job.state(), JobState::Idle);
}

#[test]
fn three_batches_for_250_units() {
    let mut job = ExtractionJob::new();
    assert_eq!(job.start(250, 100), Action::Nothing);
    assert_eq!(job.state(), JobState::Running);
    let (extracted, actions) = run_to_end(&mut job, &[]);
    assert_eq!(extracted, vec![(0, 99), (100, 199), (200, 249)]);
    assert_eq!(
        actions,
        vec![
            Action::Batch { first: 0, last: 99 },
            Action::Report { current: 100, total: 250 },
            Action::Batch { first: 100, last: 199 },
            Action::Report { current: 200, total: 250 },
            Action::Batch { first: 200, last: 249 },
            Action::Report { current: 250, total: 250 },
            Action::Finish { total: 250 },
        ]
    );
    assert_eq!(job.state(), JobState::Done);
    assert_eq!(job.completed_units(), 250);
}

#[test]
fn present_batch_is_skipped() {
    let mut job = ExtractionJob::new();
    job.start(250, 100);
    let (extracted, actions) = run_to_end(&mut job, &[0]);
    assert_eq!(extracted, vec![(100, 199), (200, 249)]);
    assert_eq!(actions[0], Action::Batch { first: 0, last: 99 });
    assert_eq!(actions[1], Action::Nothing);
    assert_eq!(actions[2], Action::Batch { first: 100, last: 199 });
    assert_eq!(job.state(), JobState::Done);
}

#[test]
fn all_present_finishes_without_extracting() {
    let mut job = ExtractionJob::new();
    job.start(250, 100);
    let (extracted, actions) = run_to_end(&mut job, &[0, 100, 200]);
    assert!(extracted.is_empty());
    assert_eq!(actions.last(), Some(&Action::Finish { total: 250 }));
    assert!(!actions.iter().any(|a| matches!(a, Action::Report { .. })));
}

#[test]
fn batch_sizes_at_the_edges() {
    let mut job = ExtractionJob::new();
    job.start(3, 1);
    assert_eq!(run_to_end(&mut job, &[]).0, vec![(0, 0), (1, 1), (2, 2)]);

    let mut job = ExtractionJob::new();
    job.start(5, 100);
    assert_eq!(run_to_end(&mut job, &[]).0, vec![(0, 4)]);

    let mut job = ExtractionJob::new();
    job.start(200, 100);
    assert_eq!(run_to_end(&mut job, &[]).0, vec![(0, 99), (100, 199)]);

    let mut job = ExtractionJob::new();
    job.start(usize::MAX, usize::MAX);
    assert_eq!(job.handle(Event::Poll), Action::Batch { first: 0, last: usize::MAX - 1 });
    assert_eq!(
        job.handle(Event::BatchExtracted),
        Action::Report { current: usize::MAX, total: usize::MAX }
    );
}

#[test]
fn start_without_units_or_batch_size_fails() {
    let mut job = ExtractionJob::new();
    assert_eq!(job.start(0, 100), Action::Fail);
    assert_eq!(job.state(), JobState::Failed);
    assert_eq!(job.handle(Event::Poll), Action::Nothing);

    let mut job = ExtractionJob::new();
    assert_eq!(job.start(10, 0), Action::Fail);
    assert_eq!(job.state(), JobState::Failed);
}

#[test]
fn pause_holds_and_resume_continues() {
    let mut job = ExtractionJob::new();
    job.start(250, 100);
    assert_eq!(job.handle(Event::Poll), Action::Batch { first: 0, last: 99 });
    job.pause();
    assert_eq!(job.state(), JobState::Paused);
    assert!(job.is_paused());
    assert_eq!(job.handle(Event::BatchExtracted), Action::Report { current: 100, total: 250 });
    assert_eq!(job.handle(Event::Poll), Action::Wait);
    assert_eq!(job.handle(Event::Poll), Action::Wait);
    assert_eq!(job.completed_units(), 100);
    job.resume();
    assert_eq!(job.state(), JobState::Running);
    assert_eq!(job.handle(Event::Poll), Action::Batch { first: 100, last: 199 });
}

#[test]
fn cancel_during_pause_stops_at_the_next_poll() {
    let mut job = ExtractionJob::new();
    job.start(250, 100);
    job.handle(Event::Poll);
    job.handle(Event::BatchExtracted);
    job.pause();
    assert_eq!(job.handle(Event::Poll), Action::Wait);
    job.cancel();
    assert_eq!(job.state(), JobState::Cancelling);
    assert!(job.is_cancelled());
    assert_eq!(job.handle(Event::Poll), Action::Stop);
    assert_eq!(job.state(), JobState::Done);
    assert_eq!(job.completed_units(), 100);
    assert_eq!(job.handle(Event::Poll), Action::Nothing);
    job.resume();
    assert_eq!(job.handle(Event::Poll), Action::Nothing);
}

#[test]
fn cancel_lets_the_current_batch_end() {
    let mut job = ExtractionJob::new();
    job.start(250, 100);
    assert_eq!(job.handle(Event::Poll), Action::Batch { first: 0, last: 99 });
    job.cancel();
    assert_eq!(job.handle(Event::BatchExtracted), Action::Report { current: 100, total: 250 });
    assert_eq!(job.handle(Event::Poll), Action::Stop);
    assert_eq!(job.state(), JobState::Done);
}

#[test]
fn failure_ends_the_run() {
    let mut job = ExtractionJob::new();
    job.start(250, 100);
    job.handle(Event::Poll);
    job.handle(Event::BatchExtracted);
    assert_eq!(job.handle(Event::Poll), Action::Batch { first: 100, last: 199 });
    assert_eq!(job.handle(Event::BatchFailed), Action::Fail);
    assert_eq!(job.state(), JobState::Failed);
    assert_eq!(job.completed_units(), 100);
    assert_eq!(job.handle(Event::Poll), Action::Nothing);
    assert_eq!(job.handle(Event::BatchFailed), Action::Nothing);
}

#[test]
fn answers_without_an_offer_are_ignored() {
    let mut job = ExtractionJob::new();
    job.start(10, 5);
    assert_eq!(job.handle(Event::BatchExtracted), Action::Nothing);
    assert_eq!(job.handle(Event::BatchPresent), Action::Nothing);
    assert_eq!(job.handle(Event::BatchFailed), Action::Nothing);
    assert_eq!(job.completed_units(), 0);
    assert_eq!(job.state(), JobState::Running);
}

#[test]
fn start_is_ignored_while_active_and_resets_afterwards() {
    let mut job = ExtractionJob::new();
    job.start(250, 100);
    job.handle(Event::Poll);
    job.handle(Event::BatchExtracted);
    assert_eq!(job.start(7, 2), Action::Nothing);
    assert_eq!(job.total_units(), 250);
    assert_eq!(job.completed_units(), 100);
    job.pause();
    job.cancel();
    job.handle(Event::Poll);
    assert_eq!(job.state(), JobState::Done);
    assert_eq!(job.start(7, 2), Action::Nothing);
    assert_eq!(job.state(), JobState::Running);
    assert_eq!(job.total_units(), 7);
    assert_eq!(job.completed_units(), 0);
    assert!(!job.is_paused());
    assert!(!job.is_cancelled());
    assert_eq!(job.handle(Event::Poll), Action::Batch { first: 0, last: 1 });
}

#[test]
fn signals_before_a_start_are_reset_by_it() {
    let mut job = ExtractionJob::new();
    job.pause();
    job.cancel();
    assert_eq!(job.state(), JobState::Idle);
    assert!(job.is_paused() && job.is_cancelled());
    job.start(4, 2);
    assert!(!job.is_paused() && !job.is_cancelled());
    assert_eq!(job.handle(Event::Poll), Action::Batch { first: 0, last: 1 });
}

#[test]
fn two_jobs_do_not_share_signals() {
    let mut full = ExtractionJob::new();
    let mut thumbs = ExtractionJob::new();
    full.start(10, 5);
    thumbs.start(10, 5);
    full.pause();
    assert_eq!(full.handle(Event::Poll), Action::Wait);
    assert_eq!(thumbs.handle(Event::Poll), Action::Batch { first: 0, last: 4 });
    thumbs.cancel();
    assert_eq!(full.state(), JobState::Paused);
    assert!(!full.is_cancelled());
}

#[test]
fn progress_never_recedes() {
    let mut job = ExtractionJob::new();
    job.start(1000, 7);
    let mut last = 0;
    let events = [
        Event::Poll,
        Event::BatchExtracted,
        Event::Pause,
        Event::Poll,
        Event::Resume,
        Event::Poll,
        Event::BatchPresent,
        Event::Poll,
        Event::Cancel,
        Event::BatchExtracted,
        Event::Poll,
        Event::Resume,
        Event::Poll,
    ];
    for e in events {
        job.handle(e);
        let data = job.snapshot();
        assert!(data.completed_units >= last);
        assert!(data.completed_units <= data.total_units);
        last = data.completed_units;
    }
    assert_eq!(last, 21);
    assert_eq!(job.state(), JobState::Done);
}
