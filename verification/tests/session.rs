use pterm::event::{WriteOutcome, WriteStep};
use pterm::session::{ChildStatus, Session, DEFAULT_SCROLLBACK_SIZE};

#[test]
fn new_session_is_empty_and_running() {
    let session = Session::new("work".to_string());
    assert_eq!(session.name, "work");
    assert_eq!(session.exited, None);
    assert!(session.scrollback.is_empty());
    assert_eq!(session.scrollback.get_contents(), b"");
}

#[test]
fn default_scrollback_is_one_mebibyte() {
    assert_eq!(DEFAULT_SCROLLBACK_SIZE, 1_048_576);
    let mut session = Session::new("big".to_string());
    let chunk = vec![b'x'; 65536];
    for _ in 0..16 {
        session.read_pty(&chunk);
    }
    assert_eq!(session.scrollback.len(), DEFAULT_SCROLLBACK_SIZE);
    session.read_pty(b"tail");
    assert_eq!(session.scrollback.len(), DEFAULT_SCROLLBACK_SIZE);
    assert!(session.scrollback.get_contents().ends_with(b"xxxxtail"));
}

#[test]
fn read_pty_records_every_byte_in_order() {
    let mut session = Session::new("s".to_string());
    assert_eq!(session.read_pty(b"hello "), 6);
    assert_eq!(session.read_pty(b""), 0);
    assert_eq!(session.read_pty(b"world"), 5);
    assert_eq!(session.scrollback.get_contents(), b"hello world");
    assert_eq!(session.scrollback.total_written(), 11);
    assert_eq!(session.name, "s");
    assert_eq!(session.exited, None);
}

#[test]
fn check_exit_of_running_child_is_none() {
    let mut session = Session::new("s".to_string());
    assert_eq!(session.check_exit(ChildStatus::Running), None);
    assert_eq!(session.exited, None);
}

#[test]
fn check_exit_propagates_exit_status() {
    let mut session = Session::new("s".to_string());
    assert_eq!(session.check_exit(ChildStatus::Exited(7)), Some(7));
    assert_eq!(session.exited, Some(7));

    let mut session = Session::new("s".to_string());
    assert_eq!(session.check_exit(ChildStatus::Exited(0)), Some(0));
}

#[test]
fn check_exit_encodes_signal_death() {
    let mut session = Session::new("s".to_string());
    assert_eq!(session.check_exit(ChildStatus::Signaled(9)), Some(137));

    let mut session = Session::new("s".to_string());
    assert_eq!(session.check_exit(ChildStatus::Signaled(15)), Some(143));

    let mut session = Session::new("s".to_string());
    assert_eq!(session.check_exit(ChildStatus::Signaled(1)), Some(129));
}

#[test]
fn check_exit_is_idempotent() {
    let mut session = Session::new("s".to_string());
    assert_eq!(session.check_exit(ChildStatus::Running), None);
    assert_eq!(session.check_exit(ChildStatus::Exited(3)), Some(3));
    assert_eq!(session.check_exit(ChildStatus::Running), Some(3));
    assert_eq!(session.check_exit(ChildStatus::Exited(4)), Some(3));
    assert_eq!(session.check_exit(ChildStatus::Signaled(9)), Some(3));
    assert_eq!(session.exited, Some(3));
}

#[test]
fn write_pty_of_nothing_is_done_at_once() {
    assert_eq!(Session::write_pty(0, 0, None), WriteStep::Done);
}

#[test]
fn write_pty_starts_at_the_front() {
    assert_eq!(Session::write_pty(10, 0, None), WriteStep::Write { from: 0 });
}

#[test]
fn write_pty_goes_on_after_a_short_write() {
    assert_eq!(
        Session::write_pty(10, 0, Some(WriteOutcome::Wrote(4))),
        WriteStep::Write { from: 4 }
    );
    assert_eq!(
        Session::write_pty(10, 4, Some(WriteOutcome::Wrote(5))),
        WriteStep::Write { from: 9 }
    );
    assert_eq!(Session::write_pty(10, 9, Some(WriteOutcome::Wrote(1))), WriteStep::Done);
    assert_eq!(Session::write_pty(10, 0, Some(WriteOutcome::Wrote(10))), WriteStep::Done);
}

#[test]
fn write_pty_treats_zero_bytes_as_closed() {
    assert_eq!(Session::write_pty(10, 3, Some(WriteOutcome::Wrote(0))), WriteStep::WriteZero);
}

#[test]
fn write_pty_retries_when_interrupted() {
    assert_eq!(
        Session::write_pty(10, 3, Some(WriteOutcome::Interrupted)),
        WriteStep::Write { from: 3 }
    );
}

#[test]
fn write_pty_yields_when_it_would_block() {
    assert_eq!(
        Session::write_pty(10, 3, Some(WriteOutcome::WouldBlock)),
        WriteStep::YieldThenWrite { from: 3 }
    );
}

#[test]
fn write_pty_gives_up_on_error() {
    assert_eq!(Session::write_pty(10, 3, Some(WriteOutcome::Failed)), WriteStep::Failed);
}

#[test]
fn write_pty_drives_a_whole_write() {
    // A terminal that takes three bytes at a time and balks now and then.
    let data = b"0123456789";
    let mut taken: Vec<u8> = Vec::new();
    let mut attempts = 0;
    let mut step = Session::write_pty(data.len(), 0, None);
    loop {
        match step {
            WriteStep::Write { from } | WriteStep::YieldThenWrite { from } => {
                assert_eq!(from, taken.len());
                attempts += 1;
                let outcome = if attempts % 3 == 1 {
                    WriteOutcome::WouldBlock
                } else if attempts % 3 == 2 {
                    WriteOutcome::Interrupted
                } else {
                    let n = (data.len() - from).min(3);
                    taken.extend_from_slice(&data[from..from + n]);
                    WriteOutcome::Wrote(n)
                };
                step = Session::write_pty(data.len(), from, Some(outcome));
            }
            WriteStep::Done => break,
            other => panic!("unexpected step {:?}", other),
        }
    }
    assert_eq!(taken, data);
}
