use sidecar_bridge::events::{OutputEvent, PublishedEvent};
use sidecar_bridge::greet;
use sidecar_bridge::numbers::parse_i32;
use sidecar_bridge::sidecar::{parse_progress, run_events, step, strip_binaries_prefix};
use sidecar_bridge::text::trim;

fn stdout_line(text: &[u8]) -> OutputEvent {
    OutputEvent::StdoutLine(text.to_vec())
}

#[test]
fn progress_line_emits_two_events_in_order() {
    let (events, done) = step("worker", "job", &stdout_line(b"PROGRESS: 3/10"));
    assert!(!done);
    assert_eq!(events.len(), 2);
    match &events[0] {
        PublishedEvent::Progress { script, label, current, max } => {
            assert_eq!(script, "worker");
            assert_eq!(label, "job");
            assert_eq!(*current, 3);
            assert_eq!(*max, 10);
        }
        _ => panic!("first event must be the progress event"),
    }
    match &events[1] {
        PublishedEvent::Output { script, output } => {
            assert_eq!(script, "worker");
            assert_eq!(output, "PROGRESS: 3/10");
        }
        _ => panic!("second event must be the raw-output event"),
    }
}

#[test]
fn plain_line_emits_single_output() {
    let (events, done) = step("worker", "job", &stdout_line(b"hello world"));
    assert!(!done);
    assert_eq!(events.len(), 1);
    match &events[0] {
        PublishedEvent::Output { script, output } => {
            assert_eq!(script, "worker");
            assert_eq!(output, "hello world");
        }
        _ => panic!("a plain line yields only the raw-output event"),
    }
}

#[test]
fn unparsable_progress_is_plain_output() {
    let (events, _) = step("worker", "job", &stdout_line(b"PROGRESS: abc/10"));
    assert_eq!(events.len(), 1);
    assert!(matches!(&events[0], PublishedEvent::Output { .. }));
}

#[test]
fn stderr_line_emits_single_error() {
    let (events, done) = step("worker", "job", &OutputEvent::StderrLine(b"boom".to_vec()));
    assert!(!done);
    assert_eq!(events.len(), 1);
    match &events[0] {
        PublishedEvent::ErrorLine { script, error } => {
            assert_eq!(script, "worker");
            assert_eq!(error, "boom");
        }
        _ => panic!("a stderr line yields only the error event"),
    }
}

#[test]
fn termination_with_zero_succeeds_without_exit_code() {
    let (events, done) = step("worker", "job", &OutputEvent::Terminated(Some(0)));
    assert!(done);
    assert_eq!(events.len(), 1);
    match &events[0] {
        PublishedEvent::Complete { script, success, exit_code } => {
            assert_eq!(script, "worker");
            assert!(*success);
            assert!(exit_code.is_none());
        }
        _ => panic!("termination yields the completion event"),
    }
}

#[test]
fn exit_code_one_is_final_failing_completion() {
    let events = run_events(
        "worker",
        "job",
        &vec![stdout_line(b"working"), OutputEvent::Terminated(Some(1))],
    );
    let completions: Vec<usize> = events
        .iter()
        .enumerate()
        .filter(|(_, e)| matches!(e, PublishedEvent::Complete { .. }))
        .map(|(i, _)| i)
        .collect();
    assert_eq!(completions, vec![events.len() - 1]);
    match events.last().unwrap() {
        PublishedEvent::Complete { success, exit_code, .. } => {
            assert!(!*success);
            assert_eq!(*exit_code, Some(Some(1)));
        }
        _ => panic!("the last event must be the completion event"),
    }
}

#[test]
fn exhausted_stream_completes_with_unknown_code() {
    let events = run_events("worker", "job", &vec![stdout_line(b"no terminator here")]);
    assert_eq!(events.len(), 2);
    match events.last().unwrap() {
        PublishedEvent::Complete { success, exit_code, .. } => {
            assert!(!*success);
            assert_eq!(*exit_code, Some(None));
        }
        _ => panic!("an exhausted stream still ends in a completion event"),
    }
}

#[test]
fn nothing_follows_termination() {
    let events = run_events(
        "worker",
        "job",
        &vec![
            OutputEvent::Terminated(Some(0)),
            stdout_line(b"buffered after exit"),
        ],
    );
    assert_eq!(events.len(), 1);
    assert!(matches!(&events[0], PublishedEvent::Complete { .. }));
}

#[test]
fn surrounding_whitespace_is_trimmed() {
    let (events, _) = step("worker", "job", &stdout_line(b"  PROGRESS: 1/2 \n"));
    assert_eq!(events.len(), 2);
    match &events[1] {
        PublishedEvent::Output { output, .. } => assert_eq!(output, "PROGRESS: 1/2"),
        _ => panic!("second event must be the raw-output event"),
    }
}

#[test]
fn invalid_bytes_are_replaced_not_fatal() {
    let (events, _) = step("worker", "job", &stdout_line(&[0xff, b'h', b'i']));
    assert_eq!(events.len(), 1);
    match &events[0] {
        PublishedEvent::Output { output, .. } => assert_eq!(output, "\u{fffd}hi"),
        _ => panic!("an undecodable line is still plain output"),
    }
}

#[test]
fn out_of_range_progress_values_pass_through() {
    let (events, _) = step("worker", "job", &stdout_line(b"PROGRESS: -1/5"));
    assert_eq!(events.len(), 2);
    match &events[0] {
        PublishedEvent::Progress { current, max, .. } => {
            assert_eq!(*current, -1);
            assert_eq!(*max, 5);
        }
        _ => panic!("negative values are passed through uninterpreted"),
    }
    let (events, _) = step("worker", "job", &stdout_line(b"PROGRESS: 9/2"));
    assert_eq!(events.len(), 2);
}

#[test]
fn second_slash_spoils_the_parse() {
    let (events, _) = step("worker", "job", &stdout_line(b"PROGRESS: 1/2/3"));
    assert_eq!(events.len(), 1);
    assert!(matches!(&events[0], PublishedEvent::Output { .. }));
}

#[test]
fn parse_progress_exact_pairs() {
    assert_eq!(parse_progress("PROGRESS: 3/10"), Some((3, 10)));
    assert_eq!(parse_progress("PROGRESS: +3/7"), Some((3, 7)));
    assert_eq!(parse_progress("PROGRESS: -2147483648/1"), Some((i32::MIN, 1)));
    assert_eq!(parse_progress("PROGRESS: 2147483648/1"), None);
    assert_eq!(parse_progress("PROGRESS: 3/"), None);
    assert_eq!(parse_progress("PROGRESS: /3"), None);
    assert_eq!(parse_progress("PROGRESS:3/4"), None);
    assert_eq!(parse_progress("progress: 3/4"), None);
}

#[test]
fn parse_i32_matches_std() {
    for s in [
        "0", "42", "-42", "+7", "2147483647", "-2147483648", "2147483648", "-2147483649",
        "", "-", "+", "abc", " 1", "1 ", "1.5", "00042", "--3",
    ] {
        assert_eq!(parse_i32(s), s.parse::<i32>().ok(), "input {:?}", s);
    }
}

#[test]
fn trim_matches_std() {
    for s in ["", "  ", "a", " a b \t\n", "\u{a0}x\u{3000}", "inner  space"] {
        assert_eq!(trim(s), s.trim(), "input {:?}", s);
    }
}

#[test]
fn binaries_prefix_is_stripped_for_resolution() {
    assert_eq!(strip_binaries_prefix("binaries/worker"), "worker");
    assert_eq!(strip_binaries_prefix("worker"), "worker");
    assert_eq!(strip_binaries_prefix("bin/worker"), "bin/worker");
    assert_eq!(strip_binaries_prefix("binaries/"), "");
}

#[test]
fn published_script_keeps_its_prefix() {
    let (events, _) = step("binaries/worker", "job", &stdout_line(b"hi"));
    match &events[0] {
        PublishedEvent::Output { script, .. } => assert_eq!(script, "binaries/worker"),
        _ => panic!("a plain line yields the raw-output event"),
    }
}

#[test]
fn events_keep_arrival_order() {
    let events = run_events(
        "worker",
        "job",
        &vec![
            stdout_line(b"PROGRESS: 1/2"),
            OutputEvent::StderrLine(b"warn".to_vec()),
            stdout_line(b"done"),
            OutputEvent::Terminated(Some(0)),
        ],
    );
    let kinds: Vec<&str> = events
        .iter()
        .map(|e| match e {
            PublishedEvent::Progress { .. } => "progress",
            PublishedEvent::Output { .. } => "output",
            PublishedEvent::ErrorLine { .. } => "error",
            PublishedEvent::Complete { .. } => "complete",
        })
        .collect();
    assert_eq!(
        kinds,
        vec!["progress", "output", "error", "output", "complete"]
    );
}

#[test]
fn greeting_embeds_the_name() {
    assert_eq!(greet("World"), "Hello, World! You've been greeted from Rust!");
}
