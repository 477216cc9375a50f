use v_kernel::runner::{execution_result, RunOutcome};

#[test]
fn a_run_that_succeeds_is_no_error() {
    let r = execution_result(RunOutcome::Exited {
        stdout: b"hi\n".to_vec(),
        stderr: Vec::new(),
        success: true,
    });
    assert_eq!(r.stdout, "hi\n");
    assert_eq!(r.stderr, "");
    assert!(!r.is_error);
}

#[test]
fn a_warning_on_standard_error_is_no_error() {
    let r = execution_result(RunOutcome::Exited {
        stdout: b"out".to_vec(),
        stderr: b"warning: unused".to_vec(),
        success: true,
    });
    assert_eq!(r.stdout, "out");
    assert_eq!(r.stderr, "warning: unused");
    assert!(!r.is_error);
}

#[test]
fn a_failed_exit_status_is_an_error_even_without_error_text() {
    let r = execution_result(RunOutcome::Exited {
        stdout: b"partial".to_vec(),
        stderr: Vec::new(),
        success: false,
    });
    assert_eq!(r.stdout, "partial");
    assert_eq!(r.stderr, "");
    assert!(r.is_error);
}

#[test]
fn a_toolchain_that_cannot_be_started_gives_a_hint() {
    let r = execution_result(RunOutcome::SpawnFailed("No such file or directory (os error 2)".to_string()));
    assert_eq!(r.stdout, "");
    assert_eq!(
        r.stderr,
        "Could not start `v`. Is V installed and in PATH?\nError: No such file or directory (os error 2)"
    );
    assert!(r.is_error);
}

#[test]
fn a_failed_wait_is_an_error() {
    let r = execution_result(RunOutcome::WaitFailed("interrupted".to_string()));
    assert_eq!(r.stdout, "");
    assert_eq!(r.stderr, "Failed to wait on `v run`: interrupted");
    assert!(r.is_error);
}

#[test]
fn a_failed_write_is_an_error() {
    let r = execution_result(RunOutcome::WriteFailed("disk full".to_string()));
    assert_eq!(r.stdout, "");
    assert_eq!(r.stderr, "Failed to write source: disk full");
    assert!(r.is_error);
}

#[test]
fn output_is_decoded_as_utf8() {
    let r = execution_result(RunOutcome::Exited {
        stdout: "gr\u{fc}\u{df}e \u{2014} \u{1f600}".as_bytes().to_vec(),
        stderr: Vec::new(),
        success: true,
    });
    assert_eq!(r.stdout, "gr\u{fc}\u{df}e \u{2014} \u{1f600}");
    assert_eq!(r.stderr, "");
}

#[test]
fn bytes_that_are_no_utf8_are_replaced() {
    let r = execution_result(RunOutcome::Exited {
        stdout: vec![b'a', 0xff, b'b'],
        stderr: vec![0xc3],
        success: false,
    });
    assert_eq!(r.stdout, "a\u{fffd}b");
    assert_eq!(r.stderr, "\u{fffd}");
    assert!(r.is_error);
}
