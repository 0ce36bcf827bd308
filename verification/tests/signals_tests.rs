use on_exit_hook_waybar::errors::InvalidRTSignalError;
use on_exit_hook_waybar::errors::TaskHookWaybarError;
use on_exit_hook_waybar::signals::calculate_signal_number;
use on_exit_hook_waybar::signals::get_processes_by_name;
use on_exit_hook_waybar::signals::notify_processes;
use on_exit_hook_waybar::signals::resolve_signal_number;
use on_exit_hook_waybar::signals::send_offset_signal_to_process_by_name;
use on_exit_hook_waybar::signals::send_signal_to_processes_by_name;
use on_exit_hook_waybar::signals::ProcessInfo;
use on_exit_hook_waybar::signals::SignalSender;

struct Recorder {
    calls: Vec<(i32, i32)>,
    succeed: bool,
}

impl Recorder {
    fn new(succeed: bool) -> Recorder {
        Recorder { calls: Vec::new(), succeed }
    }
}

impl SignalSender for Recorder {
    fn send_signal(&mut self, pid: i32, sig_num: i32) -> bool {
        self.calls.push((pid, sig_num));
        self.succeed
    }
}

#[test]
fn main_test_calculate_signal_number_valid() {
    let result = calculate_signal_number(8);
    assert!(result.is_ok());
    assert_eq!(result.unwrap(), libc::SIGRTMIN() + 8)
}

#[test]
fn main_test_calculate_signal_number_below_min() {
    let result = calculate_signal_number(0);
    assert!(matches!(
        result,
        Err(InvalidRTSignalError::BelowMinError { .. })
    ));
}

#[test]
fn main_test_calculate_signal_number_negative_offset() {
    let result = calculate_signal_number(-500);
    assert!(matches!(
        result,
        Err(InvalidRTSignalError::BelowMinError { .. })
    ));
}

#[test]
fn main_test_calculate_signal_number_above_max() {
    let result = calculate_signal_number(50);
    assert!(matches!(
        result,
        Err(InvalidRTSignalError::AboveMaxError { .. })
    ));
}

#[test]
fn signals_test_calculate_signal_number_valid() {
    let result = calculate_signal_number(8);
    assert!(result.is_ok());
    assert_eq!(result.unwrap(), libc::SIGRTMIN() + 8)
}

#[test]
fn signals_test_calculate_signal_number_below_min() {
    let result = calculate_signal_number(0);
    assert!(matches!(
        result,
        Err(InvalidRTSignalError::BelowMinError { .. })
    ));
}

#[test]
fn signals_test_calculate_signal_number_negative_offset() {
    let result = calculate_signal_number(-500);
    assert!(matches!(
        result,
        Err(InvalidRTSignalError::BelowMinError { .. })
    ));
}

#[test]
fn signals_test_calculate_signal_number_above_max() {
    let result = calculate_signal_number(50);
    assert!(matches!(
        result,
        Err(InvalidRTSignalError::AboveMaxError { .. })
    ));
}

#[test]
fn test_retrieve_valid_processes() {
    // Look up a command name that is certainly running: one read from the
    // live process table itself.
    let name = procfs::process::all_processes()
        .unwrap()
        .find_map(|p| p.ok().and_then(|p| p.stat().ok()).map(|s| s.comm))
        .unwrap();
    let procs = get_processes_by_name(&name);
    assert!(procs.is_ok());
    let procs = procs.unwrap();
    assert!(!procs.is_empty());
    assert!(procs.iter().all(|p| p.comm == name && p.pid > 0));
}

#[test]
fn test_resolve_signal_number_in_window() {
    let result = resolve_signal_number(8, 34, 64);
    assert_eq!(result.unwrap(), 42);
}

#[test]
fn test_resolve_signal_number_below_min_context() {
    match resolve_signal_number(0, 34, 64) {
        Err(InvalidRTSignalError::BelowMinError { offset }) => assert_eq!(offset, 0),
        other => panic!("unexpected result: {:?}", other),
    }
}

#[test]
fn test_resolve_signal_number_above_max_context() {
    match resolve_signal_number(50, 34, 64) {
        Err(InvalidRTSignalError::AboveMaxError {
            offset,
            base,
            max,
            computed,
        }) => {
            assert_eq!(offset, 50);
            assert_eq!(base, 34);
            assert_eq!(max, 64);
            assert_eq!(computed, 84);
        }
        other => panic!("unexpected result: {:?}", other),
    }
}

#[test]
fn test_notify_processes_delivers_to_every_target() {
    let procs = vec![
        ProcessInfo {
            pid: 101,
            comm: "waybar".to_string(),
        },
        ProcessInfo {
            pid: 202,
            comm: "waybar".to_string(),
        },
    ];
    let mut sender = Recorder::new(true);
    let result = notify_processes(&mut sender, &procs, 42);
    assert!(result.is_ok());
    assert_eq!(sender.calls, vec![(101, 42), (202, 42)]);
}

#[test]
fn test_notify_processes_tolerates_failed_deliveries() {
    let procs = vec![
        ProcessInfo {
            pid: 101,
            comm: "waybar".to_string(),
        },
        ProcessInfo {
            pid: 202,
            comm: "waybar".to_string(),
        },
    ];
    let mut sender = Recorder::new(false);
    let result = notify_processes(&mut sender, &procs, 42);
    assert!(result.is_ok());
    assert_eq!(sender.calls.len(), 2);
}

#[test]
fn test_notify_processes_empty_set_is_an_error() {
    let procs: Vec<ProcessInfo> = Vec::new();
    let mut sender = Recorder::new(true);
    let result = notify_processes(&mut sender, &procs, 42);
    assert!(matches!(result, Err(TaskHookWaybarError::ProcessNotFound)));
    assert!(sender.calls.is_empty());
}

#[test]
fn test_send_signal_to_processes_by_name_no_match() {
    let mut sender = Recorder::new(true);
    let result =
        send_signal_to_processes_by_name(&mut sender, "zz_no_such_process_zz", 42);
    assert!(matches!(result, Err(TaskHookWaybarError::ProcessNotFound)));
    assert!(sender.calls.is_empty());
}

#[test]
fn test_send_offset_signal_below_min_sends_nothing() {
    let mut sender = Recorder::new(true);
    let result = send_offset_signal_to_process_by_name(&mut sender, "waybar", 0);
    assert!(matches!(
        result,
        Err(TaskHookWaybarError::InvalidRTSignal(
            InvalidRTSignalError::BelowMinError { offset: 0 }
        ))
    ));
    assert!(sender.calls.is_empty());
}
