//! Focus on X11: which window has it, and giving it back.
use crate::focus;
use crate::focus::TargetWindow;
use vstd::prelude::*;

verus! {

/// The time stamp that stands for the present.
pub const CURRENT_TIME: u32 = 0;

/// The name of the message by which a window manager is asked to activate a
/// window.
pub const ACTIVE_WINDOW: &'static str = "_NET_ACTIVE_WINDOW";

/// The event masks under which the message reaches the window manager.
pub const SUBSTRUCTURE_NOTIFY: u32 = 0x80000;

pub const SUBSTRUCTURE_REDIRECT: u32 = 0x100000;

/// The number that has the input focus go to the parent of a window, should the
/// window go away.
pub const REVERT_TO_PARENT: u8 = 2;

/// What is known of the shared connection to the server.
#[derive(Clone, Copy, Debug, PartialEq, Eq, Structural)]
pub enum ConnEvent {
    /// The lock on the connection is broken.
    LockFailed,
    /// The lock is held; `cached` tells whether there is a connection.
    Locked { cached: bool },
    /// A connection was tried.
    Connected { ok: bool },
    /// The operation was run; `ok` is false where the connection failed it.
    Ran { ok: bool },
}

/// What to do with the shared connection.
#[derive(Clone, Copy, Debug, PartialEq, Eq, Structural)]
pub enum ConnStep {
    /// Connect, and keep the connection.
    Connect,
    /// Run the operation on the connection.
    Run,
    /// Stop. `answered` tells whether the operation gave a result, `drop_cached`
    /// whether the connection is to be given up.
    Finish { answered: bool, drop_cached: bool },
}

/// What to do with the shared connection after an event.
pub open spec fn conn_step_for(event: ConnEvent) -> ConnStep {
    match event {
        ConnEvent::LockFailed => ConnStep::Finish { answered: false, drop_cached: false },
        ConnEvent::Locked { cached } => if cached {
            ConnStep::Run
        } else {
            ConnStep::Connect
        },
        ConnEvent::Connected { ok } => if ok {
            ConnStep::Run
        } else {
            ConnStep::Finish { answered: false, drop_cached: false }
        },
        ConnEvent::Ran { ok } => ConnStep::Finish { answered: ok, drop_cached: !ok },
    }
}

/// Decides what to do with the shared connection.
pub fn with_conn(event: ConnEvent) -> (r: ConnStep)
    ensures
        r == conn_step_for(event),
{
    match event {
        ConnEvent::LockFailed => ConnStep::Finish { answered: false, drop_cached: false },
        ConnEvent::Locked { cached } => {
            if cached {
                ConnStep::Run
            } else {
                ConnStep::Connect
            }
        },
        ConnEvent::Connected { ok } => {
            if ok {
                ConnStep::Run
            } else {
                ConnStep::Finish { answered: false, drop_cached: false }
            }
        },
        ConnEvent::Ran { ok } => ConnStep::Finish { answered: ok, drop_cached: !ok },
    }
}

/// The connection is given up exactly where an operation failed on it.
pub proof fn law_connection_is_kept(event: ConnEvent)
    ensures
        (conn_step_for(event) matches ConnStep::Finish { answered, drop_cached } && drop_cached)
            <==> event == (ConnEvent::Ran { ok: false }),
{
}

/// Whether there is a connection after an event, where `cached` tells whether
/// there was one before.
pub open spec fn cached_after(cached: bool, event: ConnEvent) -> bool {
    match event {
        ConnEvent::LockFailed => cached,
        ConnEvent::Locked { cached: _ } => cached,
        ConnEvent::Connected { ok } => ok,
        ConnEvent::Ran { ok } => ok && cached,
    }
}

/// The connection that is kept after an event, where `kept` was kept before, and
/// `made` is the one that connecting makes.
pub open spec fn kept_after(kept: Option<int>, event: ConnEvent, made: int) -> Option<int> {
    match event {
        ConnEvent::LockFailed => kept,
        ConnEvent::Locked { cached: _ } => kept,
        ConnEvent::Connected { ok } => if ok {
            Some(made)
        } else {
            None
        },
        ConnEvent::Ran { ok } => if ok {
            kept
        } else {
            None
        },
    }
}

/// Whether there is a connection after the events.
pub open spec fn cached_over(cached: bool, events: Seq<ConnEvent>) -> bool
    decreases events.len(),
{
    if events.len() == 0 {
        cached
    } else {
        cached_after(cached_over(cached, events.drop_last()), events.last())
    }
}

/// The connection that is kept after the events.
pub open spec fn kept_over(kept: Option<int>, events: Seq<ConnEvent>, made: int) -> Option<int>
    decreases events.len(),
{
    if events.len() == 0 {
        kept
    } else {
        kept_after(kept_over(kept, events.drop_last(), made), events.last(), made)
    }
}

/// True where `event` can be what came of `step`.
pub open spec fn comes_of(step: ConnStep, event: ConnEvent) -> bool {
    match step {
        ConnStep::Connect => event is Connected,
        ConnStep::Run => event is Ran,
        ConnStep::Finish { answered: _, drop_cached: _ } => false,
    }
}

/// True where the event at `i` comes of the step that the one before it asks for.
pub open spec fn in_turn(events: Seq<ConnEvent>, i: int) -> bool {
    comes_of(conn_step_for(events[i - 1]), events[i])
}

/// True where the events are those of one whole use of the connection: it starts
/// with the lock, and with `cached` telling whether there is a connection; each
/// event comes of the step that the one before it asked for; and the last asks to
/// stop.
pub open spec fn whole_use(cached: bool, events: Seq<ConnEvent>) -> bool {
    &&& events.len() > 0
    &&& events[0] == ConnEvent::LockFailed || events[0] == (ConnEvent::Locked { cached })
    &&& forall|i: int| 0 < i < events.len() ==> #[trigger] in_turn(events, i)
    &&& conn_step_for(events.last()) is Finish
}

/// How often the events ask to run the operation.
pub open spec fn runs(events: Seq<ConnEvent>) -> nat
    decreases events.len(),
{
    if events.len() == 0 {
        0
    } else if conn_step_for(events.last()) is Run {
        runs(events.drop_last()) + 1
    } else {
        runs(events.drop_last())
    }
}

/// How often the events ask to connect.
pub open spec fn connects(events: Seq<ConnEvent>) -> nat
    decreases events.len(),
{
    if events.len() == 0 {
        0
    } else if conn_step_for(events.last()) is Connect {
        connects(events.drop_last()) + 1
    } else {
        connects(events.drop_last())
    }
}

/// Whether a use ends with a result of the operation.
pub open spec fn answered(events: Seq<ConnEvent>) -> bool {
    conn_step_for(events.last()) matches ConnStep::Finish { answered, drop_cached: _ } && answered
}

/// Whether a use ends with the connection being given up.
pub open spec fn given_up(events: Seq<ConnEvent>) -> bool {
    conn_step_for(events.last()) matches ConnStep::Finish { answered: _, drop_cached }
        && drop_cached
}

/// The event of an operation that was run.
pub open spec fn ran(ok: bool) -> ConnEvent {
    ConnEvent::Ran { ok }
}

/// The ways in which a use can go.
proof fn lemma_ways_of_use(cached: bool, events: Seq<ConnEvent>)
    requires
        whole_use(cached, events),
    ensures
        ({
            let locked = ConnEvent::Locked { cached };
            ||| events == seq![ConnEvent::LockFailed]
            ||| cached && exists|ok: bool| events == seq![locked, #[trigger] ran(ok)]
            ||| !cached && events == seq![locked, ConnEvent::Connected { ok: false }]
            ||| !cached && exists|ok: bool|
                events == seq![locked, ConnEvent::Connected { ok: true }, #[trigger] ran(ok)]
        }),
{
    let locked = ConnEvent::Locked { cached };
    if events.len() == 1 {
        assert(events =~= seq![ConnEvent::LockFailed]);
    } else {
        assert(in_turn(events, 1));
        if events.len() == 2 {
            if cached {
                let ok = events[1]->Ran_ok;
                assert(events =~= seq![locked, ran(ok)]);
            } else {
                assert(events =~= seq![locked, ConnEvent::Connected { ok: false }]);
            }
        } else {
            assert(in_turn(events, 2));
            if events.len() > 3 {
                assert(in_turn(events, 3));
            }
            let ok = events[2]->Ran_ok;
            assert(events =~= seq![locked, ConnEvent::Connected { ok: true }, ran(ok)]);
        }
    }
}

/// What the counts are in each of the ways in which a use can go.
proof fn lemma_counts(cached: bool, ok: bool)
    ensures
        ({
            let broken = seq![ConnEvent::LockFailed];
            let kept = seq![ConnEvent::Locked { cached: true }, ran(ok)];
            let refused = seq![
                ConnEvent::Locked { cached: false },
                ConnEvent::Connected { ok: false },
            ];
            let made = seq![
                ConnEvent::Locked { cached: false },
                ConnEvent::Connected { ok: true },
                ran(ok),
            ];
            &&& runs(broken) == 0 && connects(broken) == 0 && cached_over(cached, broken) == cached
            &&& runs(kept) == 1 && connects(kept) == 0 && cached_over(true, kept) == ok
            &&& runs(refused) == 0 && connects(refused) == 1 && !cached_over(false, refused)
            &&& runs(made) == 1 && connects(made) == 1 && cached_over(false, made) == ok
        }),
{
    reveal_with_fuel(runs, 4);
    reveal_with_fuel(connects, 4);
    reveal_with_fuel(cached_over, 4);
    let broken = seq![ConnEvent::LockFailed];
    let kept = seq![ConnEvent::Locked { cached: true }, ran(ok)];
    let refused = seq![ConnEvent::Locked { cached: false }, ConnEvent::Connected { ok: false }];
    let made = seq![
        ConnEvent::Locked { cached: false },
        ConnEvent::Connected { ok: true },
        ran(ok),
    ];
    assert(broken.drop_last() =~= Seq::empty());
    assert(kept.drop_last() =~= seq![ConnEvent::Locked { cached: true }]);
    assert(kept.drop_last().drop_last() =~= Seq::empty());
    assert(refused.drop_last() =~= seq![ConnEvent::Locked { cached: false }]);
    assert(refused.drop_last().drop_last() =~= Seq::empty());
    assert(made.drop_last() =~= seq![
        ConnEvent::Locked { cached: false },
        ConnEvent::Connected { ok: true },
    ]);
    assert(made.drop_last().drop_last() =~= seq![ConnEvent::Locked { cached: false }]);
    assert(made.drop_last().drop_last().drop_last() =~= Seq::empty());
}

/// One use of the connection: the operation is run at most once; connecting is
/// tried at most once, and exactly where the lock is held and there is no
/// connection; there is a result exactly where the operation was run and went well;
/// and the connection is given up exactly where it was run and failed.
pub proof fn law_one_use(cached: bool, events: Seq<ConnEvent>)
    requires
        whole_use(cached, events),
    ensures
        runs(events) <= 1,
        connects(events) <= 1,
        connects(events) == 1 <==> events[0] == (ConnEvent::Locked { cached: false }),
        connects(events) == 1 ==> !cached,
        runs(events) == 1 <==> events.last() is Ran,
        answered(events) <==> events.last() == (ConnEvent::Ran { ok: true }),
        given_up(events) <==> events.last() == (ConnEvent::Ran { ok: false }),
{
    lemma_ways_of_use(cached, events);
    lemma_counts(cached, true);
    lemma_counts(cached, false);
}

/// A use in which the operation goes well: it gives its result and was run exactly
/// once, nothing was connected to where there was a connection, and there is one
/// afterwards. The next use that gets the lock runs on it and does not connect.
pub proof fn law_connection_serves_the_next_use(
    cached: bool,
    events: Seq<ConnEvent>,
    next: Seq<ConnEvent>,
)
    requires
        whole_use(cached, events),
        events.last() == (ConnEvent::Ran { ok: true }),
        whole_use(cached_over(cached, events), next),
        next[0] != ConnEvent::LockFailed,
    ensures
        answered(events),
        runs(events) == 1,
        connects(events) == if cached {
            0nat
        } else {
            1nat
        },
        cached_over(cached, events),
        next[0] == (ConnEvent::Locked { cached: true }),
        conn_step_for(next[0]) is Run,
        runs(next) == 1,
        connects(next) == 0,
{
    lemma_ways_of_use(cached, events);
    lemma_counts(cached, true);
    lemma_counts(cached, false);
    lemma_ways_of_use(cached_over(cached, events), next);
}

/// The connection that an operation ran on is the one that was kept, or else the
/// one that was made; where the operation goes well it is kept, and the next
/// operation runs on the same.
pub proof fn law_same_connection(
    kept: Option<int>,
    events: Seq<ConnEvent>,
    made: int,
    next: Seq<ConnEvent>,
    other: int,
)
    requires
        whole_use(kept is Some, events),
        events.last() == (ConnEvent::Ran { ok: true }),
        whole_use(true, next),
        next[0] != ConnEvent::LockFailed,
    ensures
        ({
            let used = if kept is Some {
                kept->0
            } else {
                made
            };
            &&& kept_over(kept, events.drop_last(), made) == Some(used)
            &&& kept_over(kept, events, made) == Some(used)
            &&& kept_over(Some(used), next.drop_last(), other) == Some(used)
        }),
{
    reveal_with_fuel(kept_over, 4);
    lemma_ways_of_use(kept is Some, events);
    lemma_ways_of_use(true, next);
    assert(next.drop_last().drop_last() =~= Seq::empty());
    if kept is Some {
        assert(events.drop_last().drop_last() =~= Seq::empty());
    } else {
        assert(events.drop_last().drop_last().drop_last() =~= Seq::empty());
    }
}

/// There is a connection exactly where one is kept.
pub proof fn law_cached_is_kept(kept: Option<int>, events: Seq<ConnEvent>, made: int)
    ensures
        cached_over(kept is Some, events) == kept_over(kept, events, made) is Some,
    decreases events.len(),
{
    if events.len() > 0 {
        law_cached_is_kept(kept, events.drop_last(), made);
    }
}

/// A use that gives no result: the lock was broken, and nothing was run, connected
/// to or given up; or connecting failed, and nothing was run; or the operation
/// failed. In the last two cases there is no connection afterwards, and the next
/// use that gets the lock starts by connecting.
pub proof fn law_failure_connects_anew(
    cached: bool,
    events: Seq<ConnEvent>,
    next: Seq<ConnEvent>,
)
    requires
        whole_use(cached, events),
        events.last() != (ConnEvent::Ran { ok: true }),
        whole_use(cached_over(cached, events), next),
        next[0] != ConnEvent::LockFailed,
    ensures
        !answered(events),
        events[0] == ConnEvent::LockFailed ==> runs(events) == 0 && connects(events) == 0
            && cached_over(cached, events) == cached,
        events.last() is Connected ==> runs(events) == 0,
        events.last() is Ran ==> runs(events) == 1,
        events[0] != ConnEvent::LockFailed ==> !cached_over(cached, events) && next[0] == (
        ConnEvent::Locked { cached: false }) && conn_step_for(next[0]) is Connect && connects(next)
            == 1,
{
    lemma_ways_of_use(cached, events);
    lemma_counts(cached, true);
    lemma_counts(cached, false);
    lemma_ways_of_use(cached_over(cached, events), next);
}

/// The event of an operation, from what came of it: an error stands for a failure of
/// the connection.
pub fn ran_event<T>(outcome: &Result<T, ()>) -> (r: ConnEvent)
    ensures
        r == ran(*outcome is Ok),
{
    match outcome {
        Ok(_) => ConnEvent::Ran { ok: true },
        Err(_) => ConnEvent::Ran { ok: false },
    }
}

/// How a capture starts.
#[derive(Clone, Copy, Debug, PartialEq, Eq, Structural)]
pub enum CaptureStep {
    /// Ask the server which window has the focus.
    AskFocus,
    /// Ask nothing: there may be no server.
    Skip,
}

/// How a capture starts: outside an X11 session the focus is not even asked for.
pub open spec fn capture_start(is_x11: bool) -> CaptureStep {
    if is_x11 {
        CaptureStep::AskFocus
    } else {
        CaptureStep::Skip
    }
}

/// Decides how a capture starts.
pub fn capture_step(is_x11: bool) -> (r: CaptureStep)
    ensures
        r == capture_start(is_x11),
{
    if is_x11 {
        CaptureStep::AskFocus
    } else {
        CaptureStep::Skip
    }
}

/// The root window of a screen, where the server has that screen.
pub open spec fn root_of(roots: Seq<u32>, screen: int) -> Option<u32> {
    if screen < roots.len() {
        Some(roots[screen])
    } else {
        None
    }
}

/// The root window of a screen. `roots` are the root windows of the server's
/// screens.
pub fn root_window(roots: &[u32], screen: usize) -> (r: Option<u32>)
    ensures
        r == root_of(roots@, screen as int),
{
    if screen < roots.len() {
        Some(roots[screen])
    } else {
        None
    }
}

/// True of a window that can be typed into: neither of the two lowest numbers,
/// which stand for no window and for the pointer's, nor the root window.
pub open spec fn usable(focus: u32, root: Option<u32>) -> bool {
    focus > 1 && root != Some(focus)
}

/// The window that a server's answer names, where it can be typed into.
pub open spec fn window_in(reply: Result<u32, ()>, root: Option<u32>) -> Result<Option<u32>, ()> {
    match reply {
        Ok(focus) => Ok(
            if usable(focus, root) {
                Some(focus)
            } else {
                None
            },
        ),
        Err(()) => Err(()),
    }
}

/// The window that has the focus, from the server's answer. That no window has it
/// is an answer too, and no failure.
pub fn capture(reply: Result<u32, ()>, root: Option<u32>) -> (r: Result<Option<u32>, ()>)
    ensures
        r == window_in(reply, root),
{
    match reply {
        Ok(focus) => {
            let is_root = match root {
                Some(window) => window == focus,
                None => false,
            };
            if focus <= 1 || is_root {
                Ok(None)
            } else {
                Ok(Some(focus))
            }
        },
        Err(()) => Err(()),
    }
}

/// Whatever window the server names, the connection stays.
pub proof fn law_no_focus_is_no_failure(focus: u32, root: Option<u32>)
    ensures
        conn_step_for(ran(window_in(Ok(focus), root) is Ok)) == (ConnStep::Finish {
            answered: true,
            drop_cached: false,
        }),
        cached_after(true, ran(window_in(Ok(focus), root) is Ok)),
{
}

/// What is remembered after a whole capture: the window that the server names where
/// the focus was asked for and the window can be typed into, else what was
/// remembered before. `reply` is what the server would answer, were it asked.
pub open spec fn captured_on_x11(
    is_x11: bool,
    target: TargetWindow,
    reply: Result<u32, ()>,
    root: Option<u32>,
) -> TargetWindow {
    match capture_start(is_x11) {
        CaptureStep::AskFocus => match window_in(reply, root) {
            Ok(Some(window)) => focus::captured(target, Some(window as isize)),
            _ => focus::captured(target, None),
        },
        CaptureStep::Skip => target,
    }
}

/// A capture that fails never forgets an earlier one: outside an X11 session, where
/// the server does not answer, and where it names no window that can be typed into,
/// what was remembered stays.
pub proof fn law_failed_capture_forgets_nothing(
    is_x11: bool,
    target: TargetWindow,
    reply: Result<u32, ()>,
    root: Option<u32>,
)
    requires
        !is_x11 || reply is Err || !usable(reply->Ok_0, root),
    ensures
        captured_on_x11(is_x11, target, reply, root) == target,
{
}

/// The number under which a window is remembered.
pub fn window_number(window: u32) -> (r: isize)
    ensures
        r == window as isize,
{
    window as isize
}

/// The window to give the focus back to: the one that was captured, where the
/// session is an X11 session.
pub open spec fn target_in(is_x11: bool, target: TargetWindow) -> Option<u32> {
    match target.0 {
        Some(number) => if is_x11 {
            Some(number as u32)
        } else {
            None
        },
        None => None,
    }
}

/// The window to give the focus back to: the one that was captured, where the
/// session is an X11 session.
pub fn restore_target(is_x11: bool, target: &TargetWindow) -> (r: Option<u32>)
    ensures
        r == target_in(is_x11, *target),
{
    match target.0 {
        Some(number) => {
            if is_x11 {
                Some(
                    #[verifier::truncate]
                    (number as u32),
                )
            } else {
                None
            }
        },
        None => None,
    }
}

/// In an X11 session, the window that gets the focus back is the one that was
/// captured last.
pub proof fn law_captured_window_is_target(before: TargetWindow, window: u32)
    ensures
        target_in(true, focus::captured(before, Some(window as isize))) == Some(window),
{
    assert((window as isize) as u32 == window) by (bit_vector);
}

/// The five numbers that a client message carries.
pub type MessageData = (u32, u32, u32, u32, u32);

/// A client message, field by field.
#[derive(Clone, Copy, Debug, PartialEq, Eq)]
pub struct ClientMessage {
    /// The code of the event.
    pub response_type: u8,
    /// The width of its data, in bits.
    pub format: u8,
    /// The number that the server gives it.
    pub sequence: u16,
    /// The window that it is about.
    pub window: u32,
    /// The type of the message.
    pub message_type: u32,
    /// Its data.
    pub data: MessageData,
}

/// Calls `ClientMessageEvent::new` of x11rb and reads the fields of the event: the
/// code of a client message, a sequence number of zero, and for the rest what it
/// was given.
#[verifier::external_body]
fn client_message(format: u8, window: u32, message_type: u32, data: MessageData) -> (r:
    ClientMessage)
    ensures
        r == (ClientMessage {
            response_type: 33,
            format,
            sequence: 0,
            window,
            message_type,
            data,
        }),
{
    let numbers = [data.0, data.1, data.2, data.3, data.4];
    let event = x11rb::protocol::xproto::ClientMessageEvent::new(format, window, message_type, numbers);
    let read = event.data.as_data32();
    ClientMessage {
        response_type: event.response_type,
        format: event.format,
        sequence: event.sequence,
        window: event.window,
        message_type: event.type_,
        data: (read[0], read[1], read[2], read[3], read[4]),
    }
}

/// The message that asks the window manager to activate a window.
#[derive(Clone, Copy, Debug, PartialEq, Eq)]
pub struct ActiveWindowMessage {
    /// The window that the message is sent to: the root of the screen.
    pub root: u32,
    /// Whether it goes on to the ancestors of that window where no client there
    /// takes it.
    pub propagate: bool,
    /// The event masks that it is sent under.
    pub event_mask: u32,
    /// The message itself.
    pub event: ClientMessage,
}

/// What is to be done next to give a window the focus.
#[derive(Clone, Copy, Debug, PartialEq, Eq)]
pub enum Activation {
    /// Ask for the number of the name `ACTIVE_WINDOW`.
    InternAtom { root: u32, window: u32 },
    /// Send the message.
    Send { message: ActiveWindowMessage },
    /// Set the input focus too, for window managers that do not know the message.
    /// `revert_to` tells where it goes should the window go away.
    SetInputFocus { revert_to: u8, window: u32, time: u32 },
    /// Send out what is still waiting.
    Flush,
    /// Nothing is left to do. `sent` is false where the connection failed before
    /// the message was sent.
    Done { sent: bool },
}

/// The message that asks for `window`. Its data tell who asks (one stands for an
/// application), when, and which window is active now (zero where that is not
/// known).
pub open spec fn message_for(root: u32, window: u32, atom: u32) -> ActiveWindowMessage {
    ActiveWindowMessage {
        root,
        propagate: false,
        event_mask: 0x180000,
        event: ClientMessage {
            response_type: 33,
            format: 32,
            sequence: 0,
            window,
            message_type: atom,
            data: (1, CURRENT_TIME, 0, 0, 0),
        },
    }
}

/// What is to be done after `s`; `reply` is `None` where the connection failed it,
/// and else the number that was asked for.
pub open spec fn activation_after(s: Activation, reply: Option<u32>) -> Activation {
    match s {
        Activation::InternAtom { root, window } => match reply {
            Some(atom) => Activation::Send { message: message_for(root, window, atom) },
            None => Activation::Done { sent: false },
        },
        Activation::Send { message } => match reply {
            Some(_) => Activation::SetInputFocus {
                revert_to: REVERT_TO_PARENT,
                window: message.event.window,
                time: CURRENT_TIME,
            },
            None => Activation::Done { sent: false },
        },
        Activation::SetInputFocus { revert_to, window, time } => Activation::Flush,
        Activation::Flush => Activation::Done { sent: true },
        Activation::Done { sent } => s,
    }
}

/// The first thing to do to give `window` the focus: to ask for the name, or nothing
/// where the server does not have the screen.
pub open spec fn first_activation(roots: Seq<u32>, screen: int, window: u32) -> Activation {
    match root_of(roots, screen) {
        Some(root) => Activation::InternAtom { root, window },
        None => Activation::Done { sent: false },
    }
}

/// The first thing to do to give `window` the focus. `roots` are the root windows
/// of the server's screens.
pub fn restore(roots: &[u32], screen: usize, window: u32) -> (r: Activation)
    ensures
        r == first_activation(roots@, screen as int, window),
{
    match root_window(roots, screen) {
        Some(root) => Activation::InternAtom { root, window },
        None => Activation::Done { sent: false },
    }
}

/// The message that asks for `window`.
pub fn active_window_message(root: u32, window: u32, atom: u32) -> (r: ActiveWindowMessage)
    ensures
        r == message_for(root, window, atom),
{
    assert(0x80000u32 | 0x100000u32 == 0x180000u32) by (bit_vector);
    ActiveWindowMessage {
        root,
        propagate: false,
        event_mask: SUBSTRUCTURE_NOTIFY | SUBSTRUCTURE_REDIRECT,
        event: client_message(32, window, atom, (1, CURRENT_TIME, 0, 0, 0)),
    }
}

/// What a restore ends with, once nothing is left to do: an error where the message
/// was not sent.
pub open spec fn outcome_of(s: Activation) -> Option<Result<(), ()>> {
    match s {
        Activation::Done { sent } => if sent {
            Some(Ok(()))
        } else {
            Some(Err(()))
        },
        _ => None,
    }
}

impl Activation {
    /// What the restore ends with, or `None` as long as something is left to do.
    pub fn outcome(self) -> (r: Option<Result<(), ()>>)
        ensures
            r == outcome_of(self),
            r is Some <==> self is Done,
            self matches Activation::Done { sent } ==> ran(r->0 is Ok) == (ConnEvent::Ran {
                ok: sent,
            }),
    {
        match self {
            Activation::Done { sent } => {
                if sent {
                    Some(Ok(()))
                } else {
                    Some(Err(()))
                }
            },
            _ => None,
        }
    }

    /// The next thing to do, given what came of this one.
    pub fn next(self, reply: Option<u32>) -> (r: Activation)
        ensures
            r == activation_after(self, reply),
    {
        match self {
            Activation::InternAtom { root, window } => match reply {
                Some(atom) => Activation::Send {
                    message: active_window_message(root, window, atom),
                },
                None => Activation::Done { sent: false },
            },
            Activation::Send { message } => match reply {
                Some(_) => Activation::SetInputFocus {
                    revert_to: REVERT_TO_PARENT,
                    window: message.event.window,
                    time: CURRENT_TIME,
                },
                None => Activation::Done { sent: false },
            },
            Activation::SetInputFocus { revert_to: _, window: _, time: _ } => Activation::Flush,
            Activation::Flush => Activation::Done { sent: true },
            Activation::Done { sent } => Activation::Done { sent },
        }
    }
}

/// Where the replies lead from `s`.
pub open spec fn activation_run(s: Activation, replies: Seq<Option<u32>>) -> Activation
    decreases replies.len(),
{
    if replies.len() == 0 {
        s
    } else {
        activation_run(activation_after(s, replies[0]), replies.drop_first())
    }
}

/// Restoring counts as done exactly where both the name was known and the message
/// was sent; what becomes of the input focus afterwards makes no difference.
pub proof fn law_sent_means_dispatched(root: u32, window: u32, replies: Seq<Option<u32>>)
    requires
        replies.len() >= 4,
    ensures
        activation_run(Activation::InternAtom { root, window }, replies) == (Activation::Done {
            sent: replies[0] is Some && replies[1] is Some,
        }),
{
    let s0 = Activation::InternAtom { root, window };
    let s1 = activation_after(s0, replies[0]);
    let r1 = replies.drop_first();
    let s2 = activation_after(s1, r1[0]);
    let r2 = r1.drop_first();
    let s3 = activation_after(s2, r2[0]);
    let r3 = r2.drop_first();
    let s4 = activation_after(s3, r3[0]);
    assert(r1[0] == replies[1]);
    assert(activation_run(s0, replies) == activation_run(s1, r1));
    assert(activation_run(s1, r1) == activation_run(s2, r2));
    assert(activation_run(s2, r2) == activation_run(s3, r3));
    assert(activation_run(s3, r3) == activation_run(s4, r3.drop_first()));
    lemma_done_stays(s4, r3.drop_first());
}

/// A restore and the connection: where the message was sent, the use of the
/// connection gives a result and the connection stays; where it was not, or where
/// the server does not have the screen, there is no result and the connection is
/// given up.
pub proof fn law_restore_and_connection(
    roots: Seq<u32>,
    screen: int,
    window: u32,
    replies: Seq<Option<u32>>,
)
    requires
        replies.len() >= 4,
    ensures
        ({
            let known = root_of(roots, screen) is Some;
            let end = activation_run(first_activation(roots, screen, window), replies);
            let sent = known && replies[0] is Some && replies[1] is Some;
            let event = ran(outcome_of(end)->0 is Ok);
            &&& outcome_of(end) is Some
            &&& event == (ConnEvent::Ran { ok: sent })
            &&& conn_step_for(event) == (ConnStep::Finish { answered: sent, drop_cached: !sent })
            &&& cached_after(true, event) == sent
        }),
{
    match root_of(roots, screen) {
        Some(root) => {
            law_sent_means_dispatched(root, window, replies);
        },
        None => {
            lemma_done_stays(Activation::Done { sent: false }, replies);
        },
    }
}

/// The whole of what is done to give `window` the focus, where the name is known
/// by `atom` and the message can be sent: the message, which does not propagate,
/// then the input focus, which reverts to the parent, then what is still waiting
/// is sent out.
pub proof fn law_complete_activation(
    root: u32,
    window: u32,
    atom: u32,
    sent: u32,
    second: Option<u32>,
    third: Option<u32>,
)
    ensures
        ({
            let first = Activation::InternAtom { root, window };
            let message = ActiveWindowMessage {
                root,
                propagate: false,
                event_mask: SUBSTRUCTURE_NOTIFY | SUBSTRUCTURE_REDIRECT,
                event: ClientMessage {
                    response_type: 33,
                    format: 32,
                    sequence: 0,
                    window,
                    message_type: atom,
                    data: (1, CURRENT_TIME, 0, 0, 0),
                },
            };
            let send = activation_after(first, Some(atom));
            let set = activation_after(send, Some(sent));
            let flush = activation_after(set, second);
            &&& send == (Activation::Send { message })
            &&& set == (Activation::SetInputFocus {
                revert_to: REVERT_TO_PARENT,
                window,
                time: CURRENT_TIME,
            })
            &&& flush is Flush
            &&& activation_after(flush, third) == (Activation::Done { sent: true })
        }),
{
    assert(0x80000u32 | 0x100000u32 == 0x180000u32) by (bit_vector);
}

proof fn lemma_done_stays(s: Activation, replies: Seq<Option<u32>>)
    requires
        s is Done,
    ensures
        activation_run(s, replies) == s,
    decreases replies.len(),
{
    if replies.len() > 0 {
        lemma_done_stays(s, replies.drop_first());
    }
}

/// A restore names exactly the window that it is for: where the server has the
/// screen, knows the name by `atom` and takes the message, the message goes to the
/// root of that screen and is about `window`, and `window` is what the input focus
/// is set to. Where the server does not have the screen, nothing is done.
pub proof fn law_restore_names_the_window(
    roots: Seq<u32>,
    screen: int,
    window: u32,
    atom: u32,
    sent: u32,
    other: Option<u32>,
)
    requires
        0 <= screen,
    ensures
        screen < roots.len() ==> {
            let first = first_activation(roots, screen, window);
            let second = activation_after(first, Some(atom));
            let third = activation_after(second, Some(sent));
            let fourth = activation_after(third, other);
            &&& first == (Activation::InternAtom { root: roots[screen], window })
            &&& second == (Activation::Send {
                message: ActiveWindowMessage {
                    root: roots[screen],
                    propagate: false,
                    event_mask: 0x180000,
                    event: ClientMessage {
                        response_type: 33,
                        format: 32,
                        sequence: 0,
                        window,
                        message_type: atom,
                        data: (1, 0, 0, 0, 0),
                    },
                },
            })
            &&& third == (Activation::SetInputFocus { revert_to: 2, window, time: 0 })
            &&& fourth is Flush
            &&& activation_after(fourth, other) == (Activation::Done { sent: true })
            &&& activation_after(first, None) == (Activation::Done { sent: false })
            &&& activation_after(second, None) == (Activation::Done { sent: false })
        },
        screen >= roots.len() ==> first_activation(roots, screen, window) == (Activation::Done {
            sent: false,
        }),
{
}

/// The root window of a screen is the one at its place in the list, where the list
/// is long enough.
pub proof fn law_roots_by_screen(roots: Seq<u32>, screen: int)
    requires
        0 <= screen,
    ensures
        screen < roots.len() ==> root_of(roots, screen) == Some(roots[screen]),
        screen >= roots.len() ==> root_of(roots, screen) is None,
{
}

/// The window that the server names is the one that is captured, as it is named,
/// unless the name stands for no window or for the pointer's, or is that of the
/// root.
pub proof fn law_which_window_is_captured(focus: u32, root: u32)
    ensures
        focus > 1 ==> window_in(Ok(focus), None) == Ok::<Option<u32>, ()>(Some(focus)),
        focus > 1 && focus != root ==> window_in(Ok(focus), Some(root)) == Ok::<Option<u32>, ()>(
            Some(focus),
        ),
        window_in(Ok(root), Some(root)) == Ok::<Option<u32>, ()>(None),
        focus <= 1 ==> window_in(Ok(focus), Some(root)) == Ok::<Option<u32>, ()>(None),
        focus <= 1 ==> window_in(Ok(focus), None) == Ok::<Option<u32>, ()>(None),
        window_in(Err(()), Some(root)) == Err::<Option<u32>, ()>(()),
        window_in(Err(()), None) == Err::<Option<u32>, ()>(()),
{
}

/// A window that is captured in an X11 session is the one that is restored there,
/// whatever was captured before; outside such a session nothing is captured, and
/// nothing restored.
pub proof fn law_captured_then_restored(before: TargetWindow, focus: u32, root: Option<u32>)
    requires
        focus > 1,
        root != Some(focus),
    ensures
        target_in(true, captured_on_x11(true, before, Ok(focus), root)) == Some(focus),
        captured_on_x11(false, before, Ok(focus), root) == before,
        target_in(false, captured_on_x11(true, before, Ok(focus), root)) is None,
        target_in(true, TargetWindow(None)) is None,
        capture_start(true) is AskFocus,
        capture_start(false) is Skip,
{
    law_captured_window_is_target(before, focus);
}

/// What becomes of the shared connection, event by event: a broken lock ends the use;
/// a connection that is there is used, one that is not is made; one that was made is
/// used, one that could not be made ends the use; and an operation that was run ends
/// it, with its result and the connection where it went well, and without both where
/// it failed.
pub proof fn law_what_becomes_of_the_connection(cached: bool)
    ensures
        conn_step_for(ConnEvent::LockFailed) == (ConnStep::Finish {
            answered: false,
            drop_cached: false,
        }),
        conn_step_for(ConnEvent::Locked { cached: true }) is Run,
        conn_step_for(ConnEvent::Locked { cached: false }) is Connect,
        conn_step_for(ConnEvent::Connected { ok: true }) is Run,
        conn_step_for(ConnEvent::Connected { ok: false }) == (ConnStep::Finish {
            answered: false,
            drop_cached: false,
        }),
        conn_step_for(ConnEvent::Ran { ok: true }) == (ConnStep::Finish {
            answered: true,
            drop_cached: false,
        }),
        conn_step_for(ConnEvent::Ran { ok: false }) == (ConnStep::Finish {
            answered: false,
            drop_cached: true,
        }),
        cached_after(cached, ConnEvent::LockFailed) == cached,
        cached_after(cached, ConnEvent::Locked { cached }) == cached,
        cached_after(cached, ConnEvent::Connected { ok: true }),
        !cached_after(cached, ConnEvent::Connected { ok: false }),
        cached_after(cached, ConnEvent::Ran { ok: true }) == cached,
        !cached_after(cached, ConnEvent::Ran { ok: false }),
{
}

/// A restore ends well exactly where the message was sent, and has no end as long as
/// something is left to do.
pub proof fn law_how_a_restore_ends(
    root: u32,
    window: u32,
    message: ActiveWindowMessage,
    revert_to: u8,
    time: u32,
)
    ensures
        outcome_of(Activation::Done { sent: true }) == Some(Ok::<(), ()>(())),
        outcome_of(Activation::Done { sent: false }) == Some(Err::<(), ()>(())),
        outcome_of(Activation::InternAtom { root, window }) is None,
        outcome_of(Activation::Send { message }) is None,
        outcome_of(Activation::SetInputFocus { revert_to, window, time }) is None,
        outcome_of(Activation::Flush) is None,
        ran(true) == (ConnEvent::Ran { ok: true }),
        ran(false) == (ConnEvent::Ran { ok: false }),
{
}

/// Every step of a restore is about the window of the one before it: what is sent
/// about a window is followed by setting the focus to that window, and the end stays
/// what it is.
pub proof fn law_steps_keep_the_window(
    message: ActiveWindowMessage,
    revert_to: u8,
    window: u32,
    time: u32,
    sent: bool,
    number: u32,
    reply: Option<u32>,
)
    ensures
        activation_after(Activation::Send { message }, Some(number)) == (
        Activation::SetInputFocus { revert_to: 2, window: message.event.window, time: 0 }),
        activation_after(Activation::Send { message }, None) == (Activation::Done { sent: false }),
        activation_after(Activation::SetInputFocus { revert_to, window, time }, reply) is Flush,
        activation_after(Activation::Flush, reply) == (Activation::Done { sent: true }),
        activation_after(Activation::Done { sent }, reply) == (Activation::Done { sent }),
{
}

/// The window to give the focus back to is read from the number that was remembered,
/// by its low thirty-two bits, in an X11 session; in any other there is none.
pub proof fn law_target_of_a_number(number: isize)
    ensures
        target_in(true, TargetWindow(Some(number))) == Some(number as u32),
        target_in(false, TargetWindow(Some(number))) is None,
        target_in(true, TargetWindow(None)) is None,
        target_in(false, TargetWindow(None)) is None,
{
}

/// The name that a window manager knows the message by.
pub proof fn law_name_of_the_message()
    ensures
        ACTIVE_WINDOW@ == "_NET_ACTIVE_WINDOW"@,
{
}

} // verus!
