//! Bringing a window to the front where the system guards the foreground.
//!
//! The system may deny a request for the foreground. Joining the input queue of
//! the window's thread for the time of the request gets round that, and a request
//! that is denied is made once more after a short wait.
use crate::focus;
use crate::focus::TargetWindow;
use vstd::prelude::*;

verus! {

/// How long to wait before the second request, in milliseconds.
pub const RETRY_WAIT_MS: u64 = 15;

/// The event that tells the user that no request was granted.
pub const RESTORE_FAILED_EVENT: &'static str = "focus-restore-failed";

/// What a request for the foreground needs to know.
#[derive(Clone, Copy, Debug, PartialEq, Eq, Structural)]
pub struct Attempt {
    /// The window.
    pub hwnd: isize,
    /// The thread that the window belongs to, or zero where it is not known.
    pub target_thread: u32,
    /// The thread that asks.
    pub our_thread: u32,
    /// Whether this is the first request.
    pub first: bool,
}

/// What is to be done next.
#[derive(Clone, Copy, Debug, PartialEq, Eq, Structural)]
pub enum Restore {
    /// Ask whether the window still exists.
    CheckWindow { hwnd: isize },
    /// Ask for the window's thread and for the thread that asks.
    AskThreads { hwnd: isize },
    /// Join the input queue of the window's thread.
    Attach { attempt: Attempt },
    /// Request the foreground for the window.
    Activate { attempt: Attempt, attached: bool },
    /// Leave the input queue again. `granted` tells how the request went.
    Detach { attempt: Attempt, granted: bool },
    /// Wait before the second request.
    Wait { attempt: Attempt, millis: u64 },
    /// Tell the user that the text may land in the wrong window.
    Report { hwnd: isize },
    /// Nothing is left to do.
    Done { restored: bool },
}

/// What came of it.
#[derive(Clone, Copy, Debug, PartialEq, Eq, Structural)]
pub struct Reply {
    /// Whether the answer was yes, or the call went well.
    pub yes: bool,
    /// The thread that the window belongs to; read after `AskThreads` only.
    pub target_thread: u32,
    /// The thread that asks; read after `AskThreads` only.
    pub our_thread: u32,
}

/// True where the input queue of another thread has to be joined.
pub open spec fn needs_attach(a: Attempt) -> bool {
    a.target_thread != 0 && a.target_thread != a.our_thread
}

/// How a request begins.
pub open spec fn begun(a: Attempt) -> Restore {
    if needs_attach(a) {
        Restore::Attach { attempt: a }
    } else {
        Restore::Activate { attempt: a, attached: false }
    }
}

/// What follows a request.
pub open spec fn settled(a: Attempt, granted: bool) -> Restore {
    if granted {
        Restore::Done { restored: true }
    } else if a.first {
        Restore::Wait { attempt: a, millis: RETRY_WAIT_MS }
    } else {
        Restore::Report { hwnd: a.hwnd }
    }
}

/// What is to be done after `s`, given what came of it.
pub open spec fn following(s: Restore, reply: Reply) -> Restore {
    match s {
        Restore::CheckWindow { hwnd } => if reply.yes {
            Restore::AskThreads { hwnd }
        } else {
            Restore::Done { restored: false }
        },
        Restore::AskThreads { hwnd } => begun(
            Attempt {
                hwnd,
                target_thread: reply.target_thread,
                our_thread: reply.our_thread,
                first: true,
            },
        ),
        Restore::Attach { attempt } => Restore::Activate { attempt, attached: reply.yes },
        Restore::Activate { attempt, attached } => if attached {
            Restore::Detach { attempt, granted: reply.yes }
        } else {
            settled(attempt, reply.yes)
        },
        Restore::Detach { attempt, granted } => settled(attempt, granted),
        Restore::Wait { attempt, millis } => begun(Attempt { first: false, ..attempt }),
        Restore::Report { hwnd } => Restore::Done { restored: false },
        Restore::Done { restored } => s,
    }
}

fn begin(a: Attempt) -> (r: Restore)
    ensures
        r == begun(a),
{
    if a.target_thread != 0 && a.target_thread != a.our_thread {
        Restore::Attach { attempt: a }
    } else {
        Restore::Activate { attempt: a, attached: false }
    }
}

fn settle(a: Attempt, granted: bool) -> (r: Restore)
    ensures
        r == settled(a, granted),
{
    if granted {
        Restore::Done { restored: true }
    } else if a.first {
        Restore::Wait { attempt: a, millis: RETRY_WAIT_MS }
    } else {
        Restore::Report { hwnd: a.hwnd }
    }
}

/// The window that the system names as the one in the foreground, or `None` where
/// it names none, which it does by a null handle.
pub fn foreground_window(handle: isize) -> (r: Option<isize>)
    ensures
        r == if handle == 0 {
            None
        } else {
            Some(handle)
        },
{
    if handle == 0 {
        None
    } else {
        Some(handle)
    }
}

/// The first thing to do to give the captured window the foreground, or `None`
/// where none was captured.
pub open spec fn first_step(target: TargetWindow) -> Option<Restore> {
    match target.0 {
        Some(hwnd) => Some(Restore::CheckWindow { hwnd }),
        None => None,
    }
}

/// The first thing to do to give the captured window the foreground, or `None`
/// where none was captured.
pub fn restore_foreground(target: &TargetWindow) -> (r: Option<Restore>)
    ensures
        r == first_step(*target),
{
    match target.0 {
        Some(hwnd) => Some(Restore::CheckWindow { hwnd }),
        None => None,
    }
}

impl Restore {
    /// The next thing to do, given what came of this one.
    pub fn next(self, reply: Reply) -> (r: Restore)
        ensures
            r == following(self, reply),
    {
        match self {
            Restore::CheckWindow { hwnd } => {
                if reply.yes {
                    Restore::AskThreads { hwnd }
                } else {
                    Restore::Done { restored: false }
                }
            },
            Restore::AskThreads { hwnd } => begin(
                Attempt {
                    hwnd,
                    target_thread: reply.target_thread,
                    our_thread: reply.our_thread,
                    first: true,
                },
            ),
            Restore::Attach { attempt } => Restore::Activate { attempt, attached: reply.yes },
            Restore::Activate { attempt, attached } => {
                if attached {
                    Restore::Detach { attempt, granted: reply.yes }
                } else {
                    settle(attempt, reply.yes)
                }
            },
            Restore::Detach { attempt, granted } => settle(attempt, granted),
            Restore::Wait { attempt, millis: _ } => begin(
                Attempt {
                    hwnd: attempt.hwnd,
                    target_thread: attempt.target_thread,
                    our_thread: attempt.our_thread,
                    first: false,
                },
            ),
            Restore::Report { hwnd: _ } => Restore::Done { restored: false },
            Restore::Done { restored } => Restore::Done { restored },
        }
    }
}

/// Where the replies lead from `s`.
pub open spec fn after_replies(s: Restore, replies: Seq<Reply>) -> Restore
    decreases replies.len(),
{
    if replies.len() == 0 {
        s
    } else {
        after_replies(following(s, replies[0]), replies.drop_first())
    }
}

/// How many of the steps that the replies answer are requests for the foreground.
pub open spec fn requests(s: Restore, replies: Seq<Reply>) -> nat
    decreases replies.len(),
{
    if replies.len() == 0 {
        0
    } else {
        let rest = requests(following(s, replies[0]), replies.drop_first());
        if s is Activate {
            rest + 1
        } else {
            rest
        }
    }
}

/// How many of those requests were granted.
pub open spec fn granted_requests(s: Restore, replies: Seq<Reply>) -> nat
    decreases replies.len(),
{
    if replies.len() == 0 {
        0
    } else {
        let rest = granted_requests(following(s, replies[0]), replies.drop_first());
        if s is Activate && replies[0].yes {
            rest + 1
        } else {
            rest
        }
    }
}

/// How many of the steps that the replies answer are reports to the user.
pub open spec fn reports(s: Restore, replies: Seq<Reply>) -> nat
    decreases replies.len(),
{
    if replies.len() == 0 {
        0
    } else {
        let rest = reports(following(s, replies[0]), replies.drop_first());
        if s is Report {
            rest + 1
        } else {
            rest
        }
    }
}

/// How many joins of the window's input queue went well.
pub open spec fn joins(s: Restore, replies: Seq<Reply>) -> nat
    decreases replies.len(),
{
    if replies.len() == 0 {
        0
    } else {
        let rest = joins(following(s, replies[0]), replies.drop_first());
        if s is Attach && replies[0].yes {
            rest + 1
        } else {
            rest
        }
    }
}

/// How many times the window's input queue was left.
pub open spec fn leaves(s: Restore, replies: Seq<Reply>) -> nat
    decreases replies.len(),
{
    if replies.len() == 0 {
        0
    } else {
        let rest = leaves(following(s, replies[0]), replies.drop_first());
        if s is Detach {
            rest + 1
        } else {
            rest
        }
    }
}

/// How many steps are left at most.
pub open spec fn steps_left(s: Restore) -> nat {
    match s {
        Restore::CheckWindow { hwnd } => 10,
        Restore::AskThreads { hwnd } => 9,
        Restore::Attach { attempt } => if attempt.first {
            8
        } else {
            4
        },
        Restore::Activate { attempt, attached } => if attempt.first {
            7
        } else {
            3
        },
        Restore::Detach { attempt, granted } => if attempt.first {
            6
        } else {
            2
        },
        Restore::Wait { attempt, millis } => 5,
        Restore::Report { hwnd } => 1,
        Restore::Done { restored } => 0,
    }
}

/// Every step but the last brings the end nearer.
pub proof fn law_each_step_progresses(s: Restore, reply: Reply)
    requires
        !(s is Done),
    ensures
        steps_left(following(s, reply)) < steps_left(s),
{
}

/// Whatever the replies, as many as there are steps left bring the end: ten at
/// most.
pub proof fn law_ends(s: Restore, replies: Seq<Reply>)
    requires
        replies.len() >= steps_left(s),
    ensures
        after_replies(s, replies) is Done,
    decreases replies.len(),
{
    if replies.len() > 0 {
        if !(s is Done) {
            law_each_step_progresses(s, replies[0]);
        }
        law_ends(following(s, replies[0]), replies.drop_first());
    }
}

/// How many requests are still possible.
spec fn requests_left(s: Restore) -> nat {
    match s {
        Restore::CheckWindow { hwnd } => 2,
        Restore::AskThreads { hwnd } => 2,
        Restore::Attach { attempt } => if attempt.first {
            2
        } else {
            1
        },
        Restore::Activate { attempt, attached } => if attempt.first {
            2
        } else {
            1
        },
        Restore::Detach { attempt, granted } => if attempt.first {
            1
        } else {
            0
        },
        Restore::Wait { attempt, millis } => 1,
        Restore::Report { hwnd } => 0,
        Restore::Done { restored } => 0,
    }
}

proof fn lemma_requests_left(s: Restore, replies: Seq<Reply>)
    ensures
        requests(s, replies) <= requests_left(s),
    decreases replies.len(),
{
    if replies.len() > 0 {
        lemma_requests_left(following(s, replies[0]), replies.drop_first());
    }
}

/// The foreground is requested at most twice.
pub proof fn law_at_most_two_requests(hwnd: isize, replies: Seq<Reply>)
    ensures
        requests(Restore::CheckWindow { hwnd }, replies) <= 2,
{
    lemma_requests_left(Restore::CheckWindow { hwnd }, replies);
}

/// One in the steps between joining the queue and leaving it, zero in all others.
spec fn joined(s: Restore) -> nat {
    match s {
        Restore::Activate { attempt, attached } => if attached {
            1
        } else {
            0
        },
        Restore::Detach { attempt, granted } => 1,
        _ => 0,
    }
}

proof fn lemma_joins_and_leaves(s: Restore, replies: Seq<Reply>)
    ensures
        joined(s) + joins(s, replies) == leaves(s, replies) + joined(after_replies(s, replies)),
    decreases replies.len(),
{
    if replies.len() > 0 {
        lemma_joins_and_leaves(following(s, replies[0]), replies.drop_first());
    }
}

/// Once the end is reached, the input queue has been left as often as it was
/// joined.
pub proof fn law_every_join_is_undone(hwnd: isize, replies: Seq<Reply>)
    requires
        after_replies(Restore::CheckWindow { hwnd }, replies) is Done,
    ensures
        joins(Restore::CheckWindow { hwnd }, replies) == leaves(
            Restore::CheckWindow { hwnd },
            replies,
        ),
{
    lemma_joins_and_leaves(Restore::CheckWindow { hwnd }, replies);
}

proof fn lemma_outcome(s: Restore, replies: Seq<Reply>)
    requires
        after_replies(s, replies) is Done,
        !(s is CheckWindow),
    ensures
        match s {
            Restore::Done { restored } => reports(s, replies) == 0 && granted_requests(
                s,
                replies,
            ) == 0 && after_replies(s, replies) == s,
            Restore::Detach { attempt, granted } => {
                &&& (granted || granted_requests(s, replies) > 0) == (after_replies(s, replies) == (
                Restore::Done { restored: true }))
                &&& reports(s, replies) == if granted || granted_requests(s, replies) > 0 {
                    0nat
                } else {
                    1nat
                }
            },
            _ => {
                &&& (granted_requests(s, replies) > 0) == (after_replies(s, replies) == (
                Restore::Done { restored: true }))
                &&& reports(s, replies) == if granted_requests(s, replies) > 0 {
                    0nat
                } else {
                    1nat
                }
            },
        },
    decreases replies.len(),
{
    if replies.len() > 0 {
        lemma_outcome(following(s, replies[0]), replies.drop_first());
    }
}

/// How it ends: the window counts as restored exactly where a request was
/// granted, and the user is told, once, exactly where requests were made and none
/// was granted.
pub proof fn law_failure_is_reported(hwnd: isize, replies: Seq<Reply>)
    requires
        after_replies(Restore::CheckWindow { hwnd }, replies) is Done,
    ensures
        ({
            let s = Restore::CheckWindow { hwnd };
            &&& (after_replies(s, replies) == (Restore::Done { restored: true })) == (
            granted_requests(s, replies) > 0)
            &&& reports(s, replies) == if requests(s, replies) > 0 && granted_requests(s, replies)
                == 0 {
                1nat
            } else {
                0nat
            }
        }),
{
    let s = Restore::CheckWindow { hwnd };
    if replies.len() > 0 {
        let t = following(s, replies[0]);
        let rest = replies.drop_first();
        lemma_outcome(t, rest);
        if t is Done {
            lemma_requests_left(t, rest);
        } else {
            lemma_request_is_made(t, rest);
        }
    }
}

proof fn lemma_request_is_made(s: Restore, replies: Seq<Reply>)
    requires
        after_replies(s, replies) is Done,
        s is AskThreads || s is Attach || s is Activate,
    ensures
        requests(s, replies) > 0,
    decreases replies.len(),
{
    if replies.len() > 0 && !(s is Activate) {
        lemma_request_is_made(following(s, replies[0]), replies.drop_first());
    }
}

/// The window that a step is about.
pub open spec fn window_of(s: Restore) -> Option<isize> {
    match s {
        Restore::CheckWindow { hwnd } => Some(hwnd),
        Restore::AskThreads { hwnd } => Some(hwnd),
        Restore::Attach { attempt } => Some(attempt.hwnd),
        Restore::Activate { attempt, attached } => Some(attempt.hwnd),
        Restore::Detach { attempt, granted } => Some(attempt.hwnd),
        Restore::Wait { attempt, millis } => Some(attempt.hwnd),
        Restore::Report { hwnd } => Some(hwnd),
        Restore::Done { restored } => None,
    }
}

proof fn lemma_same_window(s: Restore, hwnd: isize, replies: Seq<Reply>)
    requires
        window_of(s) is None || window_of(s) == Some(hwnd),
    ensures
        window_of(after_replies(s, replies)) is None || window_of(after_replies(s, replies))
            == Some(hwnd),
    decreases replies.len(),
{
    if replies.len() > 0 {
        lemma_same_window(following(s, replies[0]), hwnd, replies.drop_first());
    }
}

/// Where a window was captured, restoring starts, and every step of it is about
/// that window, whatever was captured before.
pub proof fn law_captured_window_is_restored(
    before: TargetWindow,
    hwnd: isize,
    replies: Seq<Reply>,
)
    ensures
        first_step(focus::captured(before, Some(hwnd))) is Some,
        ({
            let first = first_step(focus::captured(before, Some(hwnd)))->0;
            let later = after_replies(first, replies);
            window_of(first) == Some(hwnd) && (window_of(later) == Some(hwnd) || later is Done)
        }),
{
    lemma_same_window(Restore::CheckWindow { hwnd }, hwnd, replies);
}

/// Where nothing was captured, restoring does nothing.
pub proof fn law_nothing_captured(target: TargetWindow)
    ensures
        first_step(target) is None <==> target == TargetWindow(None),
{
}

/// Which step a request starts with, from the two threads: another thread than ours,
/// where it is known, has its input queue joined first; ours, or one that is not
/// known, has not. So it is for the first request and for the second, and both are
/// for the same window and the same threads.
pub proof fn law_whose_queue_is_joined(hwnd: isize, reply: Reply, waited: Attempt, millis: u64)
    ensures
        ({
            let other = reply.target_thread != 0 && reply.target_thread != reply.our_thread;
            let first = following(Restore::AskThreads { hwnd }, reply);
            let attempt = Attempt {
                hwnd,
                target_thread: reply.target_thread,
                our_thread: reply.our_thread,
                first: true,
            };
            &&& other ==> first == (Restore::Attach { attempt })
            &&& !other ==> first == (Restore::Activate { attempt, attached: false })
        }),
        ({
            let other = waited.target_thread != 0 && waited.target_thread != waited.our_thread;
            let second = following(Restore::Wait { attempt: waited, millis }, reply);
            let attempt = Attempt {
                hwnd: waited.hwnd,
                target_thread: waited.target_thread,
                our_thread: waited.our_thread,
                first: false,
            };
            &&& other ==> second == (Restore::Attach { attempt })
            &&& !other ==> second == (Restore::Activate { attempt, attached: false })
        }),
{
}

/// A window that is gone ends it, and one that is there has its threads asked for.
pub proof fn law_only_for_a_window_that_is_there(hwnd: isize, reply: Reply)
    ensures
        reply.yes ==> following(Restore::CheckWindow { hwnd }, reply) == (Restore::AskThreads {
            hwnd,
        }),
        !reply.yes ==> following(Restore::CheckWindow { hwnd }, reply) == (Restore::Done {
            restored: false,
        }),
{
}

/// A request is made whether or not the queue could be joined; where it was joined,
/// it is left again, however the request went, before anything else.
pub proof fn law_a_joined_queue_is_left(attempt: Attempt, reply: Reply)
    ensures
        following(Restore::Attach { attempt }, reply) == (Restore::Activate {
            attempt,
            attached: reply.yes,
        }),
        following(Restore::Activate { attempt, attached: true }, reply) == (Restore::Detach {
            attempt,
            granted: reply.yes,
        }),
{
}

/// After a request, with the queue left where it was joined: one that was granted
/// ends it; the first that was denied is followed by a wait of fifteen milliseconds;
/// the second that was denied by a report, which ends it.
pub proof fn law_what_follows_a_request(attempt: Attempt, reply: Reply, granted: bool)
    ensures
        ({
            let left = following(Restore::Detach { attempt, granted }, reply);
            let asked = following(Restore::Activate { attempt, attached: false }, reply);
            let wait = Restore::Wait { attempt, millis: 15 };
            let report = Restore::Report { hwnd: attempt.hwnd };
            &&& granted ==> left == (Restore::Done { restored: true })
            &&& !granted && attempt.first ==> left == wait
            &&& !granted && !attempt.first ==> left == report
            &&& reply.yes ==> asked == (Restore::Done { restored: true })
            &&& !reply.yes && attempt.first ==> asked == wait
            &&& !reply.yes && !attempt.first ==> asked == report
            &&& following(report, reply) == (Restore::Done { restored: false })
        }),
        following(Restore::Done { restored: granted }, reply) == (Restore::Done {
            restored: granted,
        }),
{
}

/// Restoring starts by asking after exactly the window that was captured.
pub proof fn law_where_restoring_starts(hwnd: isize)
    ensures
        first_step(TargetWindow(Some(hwnd))) == Some(Restore::CheckWindow { hwnd }),
        first_step(TargetWindow(None)) is None,
{
}

/// The name of the event by which the user is told.
pub proof fn law_name_of_the_report()
    ensures
        RESTORE_FAILED_EVENT@ == "focus-restore-failed"@,
{
}

} // verus!
