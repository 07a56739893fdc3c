use stow::job::{Directive, Event, Job, JobError, Phase, Purpose};

fn strings(items: &[&str]) -> Vec<String> {
    items.iter().map(|s| s.to_string()).collect()
}

fn job(doomed: &[&str]) -> Job {
    Job::new(Purpose::Pack, "7z".to_string(), strings(&["a", "out.7z"]), strings(doomed))
}

fn unpacking(path: &str) -> Job {
    Job::new(Purpose::Load, "7z".to_string(), strings(&["x", path]), strings(&[path]))
}

const SUCCESS: Event = Event::Exited { success: true, code: Some(0) };

#[test]
fn a_new_job_is_ready() {
    let j = Job::new(Purpose::Load, "7zz".to_string(), strings(&["x", "p"]), strings(&["p"]));
    assert_eq!(j.purpose(), Purpose::Load);
    assert_eq!(j.program(), "7zz");
    assert_eq!(j.args(), &strings(&["x", "p"]));
    assert_eq!(j.doomed(), &strings(&["p"]));
    assert_eq!(j.phase(), Phase::Ready);
}

#[test]
fn a_smooth_run_removes_every_path_in_order() {
    let mut j = job(&["a.txt", "b.txt"]);
    assert_eq!(j.advance(Event::Begin), Directive::Spawn);
    assert_eq!(j.phase(), Phase::Spawning);
    assert_eq!(j.advance(Event::Spawned { stdin: true }), Directive::Feed);
    assert_eq!(j.phase(), Phase::Feeding);
    assert_eq!(j.advance(Event::Fed), Directive::Wait);
    assert_eq!(j.phase(), Phase::Waiting);
    assert_eq!(j.advance(SUCCESS), Directive::Remove(0));
    assert_eq!(j.phase(), Phase::Removing(0));
    assert_eq!(j.advance(Event::Removed), Directive::Remove(1));
    assert_eq!(j.phase(), Phase::Removing(1));
    assert_eq!(j.advance(Event::Removed), Directive::Finish);
    assert_eq!(j.phase(), Phase::Done);
    assert_eq!(j.doomed(), &strings(&["a.txt", "b.txt"]));
    assert_eq!(j.args(), &strings(&["a", "out.7z"]));
}

#[test]
fn a_job_without_paths_finishes_on_success() {
    let mut j = job(&[]);
    j.advance(Event::Begin);
    j.advance(Event::Spawned { stdin: true });
    j.advance(Event::Fed);
    assert_eq!(j.advance(SUCCESS), Directive::Finish);
    assert_eq!(j.phase(), Phase::Done);
}

#[test]
fn a_failed_archiver_removes_nothing() {
    let mut j = job(&["a.txt", "b.txt"]);
    j.advance(Event::Begin);
    j.advance(Event::Spawned { stdin: true });
    j.advance(Event::Fed);
    let exit = Event::Exited { success: false, code: Some(2) };
    assert_eq!(j.advance(exit), Directive::Abort(JobError::Encode(Some(2))));
    assert_eq!(j.phase(), Phase::Failed);
    assert_eq!(j.advance(Event::Removed), Directive::Abort(JobError::OutOfTurn));
    assert_eq!(j.phase(), Phase::Failed);
}

#[test]
fn a_refused_artifact_is_an_authentication_failure() {
    let mut j = unpacking("a.7z");
    j.advance(Event::Begin);
    j.advance(Event::Spawned { stdin: true });
    j.advance(Event::Fed);
    let exit = Event::Exited { success: false, code: Some(2) };
    assert_eq!(j.advance(exit), Directive::Abort(JobError::Authentication(Some(2))));
    assert_eq!(j.phase(), Phase::Failed);
    assert_eq!(j.purpose(), Purpose::Load);
}

#[test]
fn an_accepted_artifact_is_removed() {
    let mut j = unpacking("a.7z");
    j.advance(Event::Begin);
    j.advance(Event::Spawned { stdin: true });
    j.advance(Event::Fed);
    assert_eq!(j.advance(SUCCESS), Directive::Remove(0));
    assert_eq!(j.advance(Event::Removed), Directive::Finish);
}

#[test]
fn an_archiver_killed_by_a_signal_has_no_code() {
    let mut j = job(&["a.txt"]);
    j.advance(Event::Begin);
    j.advance(Event::Spawned { stdin: true });
    j.advance(Event::Fed);
    let exit = Event::Exited { success: false, code: None };
    assert_eq!(j.advance(exit), Directive::Abort(JobError::Encode(None)));
    let mut j = unpacking("a.7z");
    j.advance(Event::Begin);
    j.advance(Event::Spawned { stdin: true });
    j.advance(Event::Fed);
    assert_eq!(j.advance(exit), Directive::Abort(JobError::Authentication(None)));
}

#[test]
fn a_missing_input_gives_the_job_up() {
    let mut j = job(&["a.txt"]);
    j.advance(Event::Begin);
    assert_eq!(j.advance(Event::Spawned { stdin: false }), Directive::Abort(JobError::NoStdin));
    assert_eq!(j.phase(), Phase::Failed);
}

#[test]
fn a_breakdown_gives_the_job_up_in_every_working_phase() {
    let mut j = job(&["a.txt"]);
    j.advance(Event::Begin);
    assert_eq!(j.advance(Event::Broke), Directive::Abort(JobError::Io));
    assert_eq!(j.phase(), Phase::Failed);

    let mut j = job(&["a.txt"]);
    j.advance(Event::Begin);
    j.advance(Event::Spawned { stdin: true });
    assert_eq!(j.advance(Event::Broke), Directive::Abort(JobError::Io));

    let mut j = job(&["a.txt"]);
    j.advance(Event::Begin);
    j.advance(Event::Spawned { stdin: true });
    j.advance(Event::Fed);
    assert_eq!(j.advance(Event::Broke), Directive::Abort(JobError::Io));

    let mut j = job(&["a.txt", "b.txt"]);
    j.advance(Event::Begin);
    j.advance(Event::Spawned { stdin: true });
    j.advance(Event::Fed);
    j.advance(SUCCESS);
    assert_eq!(j.advance(Event::Broke), Directive::Abort(JobError::Io));
    assert_eq!(j.phase(), Phase::Failed);
}

#[test]
fn events_out_of_turn_give_the_job_up() {
    let mut j = job(&["a.txt"]);
    assert_eq!(j.advance(Event::Removed), Directive::Abort(JobError::OutOfTurn));
    assert_eq!(j.phase(), Phase::Failed);

    let mut j = job(&["a.txt"]);
    assert_eq!(j.advance(Event::Broke), Directive::Abort(JobError::OutOfTurn));

    let mut j = job(&["a.txt"]);
    assert_eq!(j.advance(SUCCESS), Directive::Abort(JobError::OutOfTurn));
    assert_eq!(j.phase(), Phase::Failed);

    let mut j = job(&["a.txt"]);
    j.advance(Event::Begin);
    assert_eq!(j.advance(SUCCESS), Directive::Abort(JobError::OutOfTurn));

    let mut j = job(&["a.txt"]);
    j.advance(Event::Begin);
    j.advance(Event::Spawned { stdin: true });
    assert_eq!(j.advance(Event::Removed), Directive::Abort(JobError::OutOfTurn));

    let mut j = job(&["a.txt"]);
    j.advance(Event::Begin);
    assert_eq!(j.advance(Event::Begin), Directive::Abort(JobError::OutOfTurn));
}

#[test]
fn a_finished_job_stays_finished() {
    let mut j = job(&["a.txt"]);
    j.advance(Event::Begin);
    j.advance(Event::Spawned { stdin: true });
    j.advance(Event::Fed);
    j.advance(SUCCESS);
    assert_eq!(j.advance(Event::Removed), Directive::Finish);
    assert_eq!(j.advance(Event::Removed), Directive::Abort(JobError::OutOfTurn));
    assert_eq!(j.phase(), Phase::Done);
    assert_eq!(j.advance(Event::Begin), Directive::Abort(JobError::OutOfTurn));
    assert_eq!(j.phase(), Phase::Done);
}

#[test]
fn no_removal_is_ordered_before_the_archiver_succeeds() {
    let alphabet = [
        Event::Begin,
        Event::Spawned { stdin: true },
        Event::Spawned { stdin: false },
        Event::Fed,
        SUCCESS,
        Event::Exited { success: false, code: Some(1) },
        Event::Removed,
        Event::Broke,
    ];
    let base = alphabet.len();
    let length = 6u32;
    for code in 0..base.pow(length) {
        let mut j = job(&["a.txt", "b.txt"]);
        let mut succeeded = false;
        let mut refused = false;
        let mut removals = 0usize;
        let mut rest = code;
        for _ in 0..length {
            let event = alphabet[rest % base];
            rest /= base;
            if event == SUCCESS {
                succeeded = true;
            }
            match j.advance(event) {
                Directive::Abort(JobError::Encode(_)) => {
                    assert_eq!(removals, 0);
                    refused = true;
                }
                Directive::Remove(k) => {
                    assert!(succeeded);
                    assert!(!refused);
                    assert_eq!(k, removals);
                    assert!(k < 2);
                    removals += 1;
                }
                Directive::Finish => assert_eq!(removals, 2),
                _ => {}
            }
        }
    }
}
