use spoken_commands::focus::{capture_foreground, is_x11_session, TargetWindow};
use spoken_commands::foreground::{
    foreground_window, restore_foreground, Attempt, Reply, Restore, RESTORE_FAILED_EVENT,
    RETRY_WAIT_MS,
};
use spoken_commands::x11::{
    active_window_message, capture, capture_step, ran_event, restore, restore_target, root_window,
    window_number, with_conn, Activation, CaptureStep, ConnEvent, ConnStep, ACTIVE_WINDOW, CURRENT_TIME, REVERT_TO_PARENT,
    SUBSTRUCTURE_NOTIFY, SUBSTRUCTURE_REDIRECT,
};
use x11rb::protocol::xproto::{ClientMessageEvent, EventMask, InputFocus};

fn reply(yes: bool) -> Reply {
    Reply { yes, target_thread: 7, our_thread: 3 }
}

fn run(hwnd: isize, replies: &[Reply]) -> Vec<Restore> {
    let mut steps = vec![Restore::CheckWindow { hwnd }];
    for r in replies {
        let last = steps[steps.len() - 1];
        steps.push(last.next(*r));
    }
    steps
}

#[test]
fn nothing_is_captured_at_first() {
    assert_eq!(TargetWindow::default(), TargetWindow(None));
    assert_eq!(restore_foreground(&TargetWindow::default()), None);
}

#[test]
fn the_last_window_is_remembered() {
    let mut target = TargetWindow::default();
    capture_foreground(&mut target, Some(5));
    capture_foreground(&mut target, None);
    assert_eq!(target, TargetWindow(Some(5)));
    capture_foreground(&mut target, foreground_window(9));
    assert_eq!(target, TargetWindow(Some(9)));
    capture_foreground(&mut target, foreground_window(0));
    assert_eq!(restore_foreground(&target), Some(Restore::CheckWindow { hwnd: 9 }));
}

#[test]
fn sessions_are_told_by_their_displays() {
    assert!(is_x11_session(None, Some(":0")));
    assert!(is_x11_session(Some(""), Some(":0")));
    assert!(!is_x11_session(Some("wayland-0"), Some(":0")));
    assert!(!is_x11_session(None, None));
    assert!(!is_x11_session(None, Some("")));
    assert!(!is_x11_session(Some("wayland-0"), None));
}

#[test]
fn a_window_that_is_gone_is_left_alone() {
    assert_eq!(run(9, &[reply(false)])[1], Restore::Done { restored: false });
}

#[test]
fn a_granted_request_joins_and_leaves_the_queue() {
    let attempt = Attempt { hwnd: 9, target_thread: 7, our_thread: 3, first: true };
    assert_eq!(
        run(9, &[reply(true); 5]),
        vec![
            Restore::CheckWindow { hwnd: 9 },
            Restore::AskThreads { hwnd: 9 },
            Restore::Attach { attempt },
            Restore::Activate { attempt, attached: true },
            Restore::Detach { attempt, granted: true },
            Restore::Done { restored: true },
        ]
    );
}

#[test]
fn a_denied_request_is_made_once_more_and_reported() {
    let first = Attempt { hwnd: 9, target_thread: 7, our_thread: 3, first: true };
    let second = Attempt { first: false, ..first };
    let yes = reply(true);
    let no = reply(false);
    let steps = run(9, &[yes, yes, yes, no, yes, yes, no, no, yes, yes]);
    assert_eq!(
        steps[3..],
        [
            Restore::Activate { attempt: first, attached: true },
            Restore::Detach { attempt: first, granted: false },
            Restore::Wait { attempt: first, millis: 15 },
            Restore::Attach { attempt: second },
            Restore::Activate { attempt: second, attached: false },
            Restore::Report { hwnd: 9 },
            Restore::Done { restored: false },
            Restore::Done { restored: false },
        ]
    );
    assert_eq!(RETRY_WAIT_MS, 15);
    assert_eq!(RESTORE_FAILED_EVENT, "focus-restore-failed");
}

#[test]
fn the_second_request_may_be_granted() {
    let steps = run(9, &[reply(true), reply(true), reply(false), reply(false), reply(true), reply(false), reply(true)]);
    assert_eq!(steps[steps.len() - 1], Restore::Done { restored: true });
}

#[test]
fn no_queue_is_joined_for_an_unknown_or_own_thread() {
    for (target_thread, our_thread) in [(0, 3), (3, 3)] {
        let attempt = Attempt { hwnd: 9, target_thread, our_thread, first: true };
        let next = Restore::AskThreads { hwnd: 9 }.next(Reply { yes: true, target_thread, our_thread });
        assert_eq!(next, Restore::Activate { attempt, attached: false });
        assert_eq!(next.next(reply(true)), Restore::Done { restored: true });
    }
}

#[test]
fn the_connection_is_dropped_only_when_an_operation_fails() {
    let stop = |answered, drop_cached| ConnStep::Finish { answered, drop_cached };
    assert_eq!(with_conn(ConnEvent::LockFailed), stop(false, false));
    assert_eq!(with_conn(ConnEvent::Locked { cached: true }), ConnStep::Run);
    assert_eq!(with_conn(ConnEvent::Locked { cached: false }), ConnStep::Connect);
    assert_eq!(with_conn(ConnEvent::Connected { ok: true }), ConnStep::Run);
    assert_eq!(with_conn(ConnEvent::Connected { ok: false }), stop(false, false));
    assert_eq!(with_conn(ConnEvent::Ran { ok: true }), stop(true, false));
    assert_eq!(with_conn(ConnEvent::Ran { ok: false }), stop(false, true));
}

struct Use {
    answered: bool,
    connects: usize,
    runs: usize,
}

fn use_connection(cached: &mut bool, connect_ok: bool, outcome: Result<u8, ()>) -> Use {
    let mut done = Use { answered: false, connects: 0, runs: 0 };
    let mut event = ConnEvent::Locked { cached: *cached };
    loop {
        event = match with_conn(event) {
            ConnStep::Connect => {
                done.connects += 1;
                *cached = connect_ok;
                ConnEvent::Connected { ok: connect_ok }
            }
            ConnStep::Run => {
                done.runs += 1;
                ran_event(&outcome)
            }
            ConnStep::Finish { answered, drop_cached } => {
                done.answered = answered;
                *cached = *cached && !drop_cached;
                return done;
            }
        };
    }
}

#[test]
fn a_kept_connection_serves_the_next_use() {
    let mut cached = false;
    let first = use_connection(&mut cached, true, Ok(1));
    assert_eq!((first.answered, first.connects, first.runs, cached), (true, 1, 1, true));
    let next = use_connection(&mut cached, false, Ok(2));
    assert_eq!((next.answered, next.connects, next.runs, cached), (true, 0, 1, true));
}

#[test]
fn after_a_failure_the_next_use_connects_anew() {
    let mut cached = false;
    let refused = use_connection(&mut cached, false, Ok(1));
    assert_eq!((refused.answered, refused.connects, refused.runs, cached), (false, 1, 0, false));
    let made = use_connection(&mut cached, true, Err(()));
    assert_eq!((made.answered, made.connects, made.runs, cached), (false, 1, 1, false));
    let anew = use_connection(&mut cached, true, Ok(3));
    assert_eq!((anew.answered, anew.connects, anew.runs, cached), (true, 1, 1, true));
    let broken = use_connection(&mut cached, true, Err(()));
    assert_eq!((broken.answered, broken.connects, broken.runs, cached), (false, 0, 1, false));
}

#[test]
fn the_focus_is_asked_for_in_an_x11_session_only() {
    assert_eq!(capture_step(true), CaptureStep::AskFocus);
    assert_eq!(capture_step(false), CaptureStep::Skip);
    assert_eq!(capture_step(is_x11_session(Some("wayland-0"), Some(":0"))), CaptureStep::Skip);
    assert_eq!(capture_step(is_x11_session(None, Some(":0"))), CaptureStep::AskFocus);
}

#[test]
fn a_restore_ends_with_what_became_of_the_message() {
    let start = restore(&[10, 11], 1, 22);
    assert_eq!(start.outcome(), None);
    let sent = start.next(Some(33)).next(Some(0)).next(None).next(None);
    assert_eq!(sent.outcome(), Some(Ok(())));
    assert_eq!(start.next(None).outcome(), Some(Err(())));
    assert_eq!(restore(&[], 0, 22).outcome(), Some(Err(())));
    assert_eq!(ran_event(&Ok::<u8, ()>(5)), ConnEvent::Ran { ok: true });
    assert_eq!(ran_event(&Err::<u8, ()>(())), ConnEvent::Ran { ok: false });
}

#[test]
fn no_window_and_the_pointer_root_are_not_captured() {
    for root in [None, Some(9)] {
        assert_eq!(capture(Ok(0), root), Ok(None));
        assert_eq!(capture(Ok(1), root), Ok(None));
        assert_eq!(capture(Ok(2), root), Ok(Some(2)));
        assert_eq!(capture(Err(()), root), Err(()));
    }
}

#[test]
fn the_root_window_is_not_captured() {
    assert_eq!(root_window(&[8, 9], 1), Some(9));
    assert_eq!(root_window(&[8, 9], 2), None);
    assert_eq!(capture(Ok(9), root_window(&[8, 9], 1)), Ok(None));
    assert_eq!(capture(Ok(8), root_window(&[8, 9], 1)), Ok(Some(8)));
    assert_eq!(capture(Ok(9), None), Ok(Some(9)));
}

#[test]
fn the_captured_window_is_the_one_restored() {
    for window in [2, 0x1234_5678, u32::MAX] {
        let mut target = TargetWindow(Some(4));
        capture_foreground(&mut target, Some(window_number(window)));
        assert_eq!(restore_target(true, &target), Some(window));
        assert_eq!(restore_target(false, &target), None);
    }
    assert_eq!(restore_target(true, &TargetWindow(None)), None);
}

#[test]
fn the_window_manager_is_asked_by_a_client_message() {
    let message = active_window_message(11, 22, 33);
    let expected = ClientMessageEvent::new(32, 22, 33u32, [1, x11rb::CURRENT_TIME, 0, 0, 0]);
    assert_eq!(message.root, 11);
    assert!(!message.propagate);
    assert_eq!(
        message.event_mask,
        u32::from(EventMask::SUBSTRUCTURE_NOTIFY | EventMask::SUBSTRUCTURE_REDIRECT)
    );
    assert_eq!(message.event_mask, SUBSTRUCTURE_NOTIFY | SUBSTRUCTURE_REDIRECT);
    assert_eq!(message.event.response_type, expected.response_type);
    assert_eq!(message.event.response_type, 33);
    assert_eq!(message.event.format, 32);
    assert_eq!(message.event.sequence, 0);
    assert_eq!(message.event.window, 22);
    assert_eq!(message.event.message_type, 33);
    assert_eq!(message.event.data, (1, 0, 0, 0, 0));
    assert_eq!(expected.data.as_data32(), [1, 0, 0, 0, 0]);
    assert_eq!((CURRENT_TIME, ACTIVE_WINDOW), (x11rb::CURRENT_TIME, "_NET_ACTIVE_WINDOW"));
}

#[test]
fn focus_is_given_back_in_four_steps() {
    let start = restore(&[10, 11], 1, 22);
    assert_eq!(start, Activation::InternAtom { root: 11, window: 22 });
    let send = start.next(Some(33));
    assert_eq!(send, Activation::Send { message: active_window_message(11, 22, 33) });
    let focus = send.next(Some(0));
    assert_eq!(focus, Activation::SetInputFocus { revert_to: 2, window: 22, time: 0 });
    assert_eq!(InputFocus::from(REVERT_TO_PARENT), InputFocus::PARENT);
    assert_eq!(focus.next(None), Activation::Flush);
    assert_eq!(focus.next(None).next(None), Activation::Done { sent: true });
    assert_eq!(start.next(None), Activation::Done { sent: false });
    assert_eq!(send.next(None), Activation::Done { sent: false });
    assert_eq!(restore(&[10], 1, 22), Activation::Done { sent: false });
    assert_eq!(restore(&[], 0, 22).next(Some(1)), Activation::Done { sent: false });
}
