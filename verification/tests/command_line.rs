use velora::cli::{ending_of_run, is_stop_event, is_stop_request, resolve_cli_action, CliAction, Ending};
use velora::output::{is_stdout_pipe_closed, OutputPipe, WriteOutcome};
use velora::text::{is_blank, is_white_space};

fn resolve(args: &[&str]) -> Option<CliAction> {
    resolve_cli_action(&args.iter().map(|a| a.to_string()).collect())
}

fn plan(path: &str) -> Option<CliAction> {
    Some(CliAction::RunPlan(path.to_string()))
}

#[test]
fn a_single_word_is_a_path() {
    assert_eq!(resolve(&["plan.json"]), plan("plan.json"));
    assert_eq!(resolve(&[""]), plan(""));
}

#[test]
fn options_announce_a_path() {
    assert_eq!(resolve(&["--plan", "a"]), plan("a"));
    assert_eq!(resolve(&["-p", "a"]), plan("a"));
    assert_eq!(resolve(&["--input", "a"]), plan("a"));
    assert_eq!(resolve(&["x", "--plan", "a", "-p", "b"]), plan("a"));
    assert_eq!(resolve(&["--plan", "--plan"]), plan("--plan"));
    assert_eq!(resolve(&["-p", "--plan", "b"]), plan("--plan"));
}

#[test]
fn the_version_is_asked_for_anywhere() {
    assert_eq!(resolve(&["--version"]), Some(CliAction::ShowVersion));
    assert_eq!(resolve(&["-V"]), Some(CliAction::ShowVersion));
    assert_eq!(resolve(&["--plan", "-V"]), Some(CliAction::ShowVersion));
    assert_eq!(resolve(&["plan.json", "--version"]), Some(CliAction::ShowVersion));
}

#[test]
fn anything_else_is_a_wrong_usage() {
    assert_eq!(resolve(&[]), None);
    assert_eq!(resolve(&["--plan"]), None);
    assert_eq!(resolve(&["-x"]), None);
    assert_eq!(resolve(&["-v"]), None);
    assert_eq!(resolve(&["a", "b"]), None);
    assert_eq!(resolve(&["a", "-p"]), None);
}

#[test]
fn a_stop_line_is_an_object_with_the_event() {
    assert!(is_stop_request("{\"event\":\"stop\"}"));
    assert!(is_stop_request("  {\"x\": 1, \"event\": \"StOp\"}  "));
    assert!(is_stop_request("{\"event\":\"start\",\"event\":\"stop\"}"));
    assert!(is_stop_request("{\"event\":\"\\u0073top\"}"));
    for line in [
        "", "   ", "stop", "\"stop\"", "{\"event\":\"stopped\"}", "{\"event\":\"st\u{f6}p\"}", "{\"event\":null}",
        "{\"event\":1}", "{\"Event\":\"stop\"}", "[\"event\",\"stop\"]", "{\"event\":\"stop\"", "{\"event\":\"stop\"} x",
        "{\"event\":[\"stop\"]}", "null", "{\"event\":\"stop\",\"event\":\"go\"}",
    ] {
        assert!(!is_stop_request(line), "{}", line);
    }
}

#[test]
fn the_event_s_case_does_not_matter() {
    assert!(is_stop_event("stop"));
    assert!(is_stop_event("STOP"));
    assert!(!is_stop_event("sto"));
    assert!(!is_stop_event("stopp"));
    assert!(!is_stop_event("\u{17f}top"));
}

#[test]
fn white_space_is_what_the_standard_library_takes_for_it() {
    for code in 0..=0x10ffffu32 {
        if let Some(c) = char::from_u32(code) {
            assert_eq!(is_white_space(c), c.is_whitespace(), "{:x}", code);
        }
    }
}

#[test]
fn blank_texts_hold_nothing_but_white_space() {
    for text in ["", " ", "\t\r\n", "\u{2003}\u{3000}", "\u{200b}", " a ", "\u{85}"] {
        assert_eq!(is_blank(text), text.trim().is_empty());
    }
}

#[test]
fn exit_codes_are_as_documented() {
    assert_eq!(Ending::Finished.exit_code(), 0);
    assert_eq!(Ending::VersionShown.exit_code(), 0);
    assert_eq!(Ending::WrongUsage.exit_code(), 1);
    assert_eq!(Ending::PlanUnreadable.exit_code(), 2);
    assert_eq!(Ending::PlanRefused.exit_code(), 2);
    assert_eq!(Ending::ClientFailed.exit_code(), 2);
    assert_eq!(Ending::Cancelled.exit_code(), 130);
    assert_eq!(Ending::TasksFailed.exit_code(), 3);
}

#[test]
fn a_run_that_is_called_off_or_unread_is_cancelled() {
    assert_eq!(ending_of_run(false, false, 0), Ending::Finished);
    assert_eq!(ending_of_run(true, false, 0), Ending::Cancelled);
    assert_eq!(ending_of_run(false, true, 2), Ending::Cancelled);
}

#[test]
fn a_run_with_failed_tasks_is_no_success() {
    assert_eq!(ending_of_run(false, false, 1), Ending::TasksFailed);
    assert_ne!(ending_of_run(false, false, u32::MAX).exit_code(), 0);
    assert_eq!(ending_of_run(false, false, 0).exit_code(), 0);
}

#[test]
fn a_broken_pipe_closes_the_output_for_good() {
    let mut pipe = OutputPipe::new();
    assert!(!is_stdout_pipe_closed(&pipe));
    assert!(pipe.after_write(WriteOutcome::Done));
    pipe.after_flush(WriteOutcome::Done);
    assert!(!pipe.after_write(WriteOutcome::Failed));
    assert!(pipe.after_write(WriteOutcome::Done));
    pipe.after_flush(WriteOutcome::Failed);
    assert!(!is_stdout_pipe_closed(&pipe));
    assert!(!pipe.after_write(WriteOutcome::BrokenPipe));
    assert!(is_stdout_pipe_closed(&pipe));
    assert!(pipe.after_write(WriteOutcome::Done));
    assert!(is_stdout_pipe_closed(&pipe));

    let mut pipe = OutputPipe::new();
    assert!(pipe.after_write(WriteOutcome::Done));
    pipe.after_flush(WriteOutcome::BrokenPipe);
    assert!(is_stdout_pipe_closed(&pipe));
}
