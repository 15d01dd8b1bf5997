use rofi_taskwarrior::command::Mode;
use rofi_taskwarrior::error::Error;
use rofi_taskwarrior::menu::begin;
use rofi_taskwarrior::menu::{fallback, Step};
use rofi_taskwarrior::rofi::Invocation;

#[test]
fn a_command_that_did_not_start_failed() {
    for mode in [Mode::Output, Mode::Status, Mode::Input, Mode::Detached] {
        assert_eq!(mode.outcome(false, None), Err(Error::ExternalTool));
        assert_eq!(mode.outcome(false, Some(0)), Err(Error::ExternalTool));
    }
}

#[test]
fn a_command_that_ended_with_zero_succeeded() {
    for mode in [Mode::Output, Mode::Status, Mode::Input, Mode::Detached] {
        assert_eq!(mode.outcome(true, Some(0)), Ok(()));
    }
}

#[test]
fn a_command_that_ended_otherwise_failed() {
    for mode in [Mode::Output, Mode::Status, Mode::Input] {
        assert_eq!(mode.outcome(true, Some(1)), Err(Error::ExternalTool));
        assert_eq!(mode.outcome(true, Some(-1)), Err(Error::ExternalTool));
        assert_eq!(mode.outcome(true, None), Err(Error::ExternalTool));
    }
}

#[test]
fn a_command_that_is_not_waited_for_succeeds_once_started() {
    assert_eq!(Mode::Detached.outcome(true, None), Ok(()));
    assert_eq!(Mode::Detached.outcome(true, Some(3)), Ok(()));
}

#[test]
fn a_start_by_hand_lists_the_tasks_plainly() {
    let read = Invocation::env(None, None, None, None);
    assert_eq!(read, Err(Error::Config));
    assert_eq!(begin(read), Ok(fallback()));
}

#[test]
fn any_other_error_ends_the_invocation() {
    let some = |t: &str| Some(t.to_string());
    assert_eq!(
        begin(Invocation::env(some("1"), some("x"), None, None)),
        Err(Error::Format)
    );
    assert_eq!(
        begin(Invocation::env(some("1"), some("0"), some("%"), None)),
        Err(Error::Decode)
    );
}

#[test]
fn a_read_invocation_is_dispatched() {
    let some = |t: &str| Some(t.to_string());
    let read = Invocation::env(some("1"), some("2"), None, some("new task"));
    match begin(read) {
        Ok(Step::Run(call)) => {
            assert_eq!(call.args, vec!["add".to_string(), "new task".to_string()])
        }
        other => panic!("no command: {:?}", other),
    }
}
