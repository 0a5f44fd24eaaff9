//! The push client: when it connects, what it reports, and how it notices that a hub is gone.
use crate::proto::MAX_WS_MESSAGE;
use crate::text::{chars_of, dec, push_dec, string_of, strip_trailing, without_trailing};
use vstd::prelude::*;
use vstd::string::*;

verus! {

/// A hub is taken for gone after this many pings in a row without an answer.
pub const MAX_MISSED_PONGS: u32 = 2;

/// Where a hub takes pushes.
pub fn push_url(base: &str) -> (r: String)
    ensures
        r@ == without_trailing(base@, '/') + "/push"@,
{
    let cs = chars_of(base);
    let mut r = string_of(strip_trailing(cs.as_slice(), '/'));
    r.append("/push");
    r
}

/// The prefix of a session's fonts on a hub.
pub fn font_prefix(id: &str) -> (r: String)
    ensures
        r@ == "/s/"@ + id@ + "/fonts/"@,
{
    let mut r = String::from_str("/s/");
    r.append(id);
    r.append("/fonts/");
    r
}

/// What is wrong with a register message of `len` bytes; `None` where it is within the limit.
pub open spec fn register_problem(len: int) -> Option<Seq<char>> {
    if len > MAX_WS_MESSAGE {
        Some(
            "register payload is "@ + dec((len / 1048576) as nat) + " MiB, over the hub's "@ + dec(
                (MAX_WS_MESSAGE / 1048576) as nat,
            )
                + " MiB per-message limit — reduce the exported font bundle (fewer or smaller fonts in the config)"@,
        )
    } else {
        None
    }
}

/// What is wrong with a register message of `len` bytes.
pub fn check_register(len: usize) -> (r: Option<String>)
    ensures
        (match r {
            Some(t) => Some(t@),
            None => None,
        }) == register_problem(len as int),
{
    if len > MAX_WS_MESSAGE {
        let mut t = String::from_str("register payload is ");
        push_dec(&mut t, (len / 1048576) as u64);
        t.append(" MiB, over the hub's ");
        push_dec(&mut t, (MAX_WS_MESSAGE / 1048576) as u64);
        t.append(
            " MiB per-message limit — reduce the exported font bundle (fewer or smaller fonts in the config)",
        );
        Some(t)
    } else {
        None
    }
}

/// How an attempt to connect came out.
pub enum Attempt {
    Connected,
    /// The key is not allowed.
    Forbidden,
    /// There was no answer; what went wrong.
    Unreachable(String),
    /// The hub answered with another status.
    Rejected(u16),
}

/// What to make of the status that a hub answers: 101 connects, 403 is final, others pass.
pub fn classify_status(status: u16) -> (r: Attempt)
    ensures
        r == (if status == 101 {
            Attempt::Connected
        } else if status == 403 {
            Attempt::Forbidden
        } else {
            Attempt::Rejected(status)
        }),
{
    if status == 101 {
        Attempt::Connected
    } else if status == 403 {
        Attempt::Forbidden
    } else {
        Attempt::Rejected(status)
    }
}

/// What to make of an upgrade that failed with a status: 403 is final, others pass.
pub fn classify_failure(status: u16) -> (r: Attempt)
    ensures
        r == (if status == 403 {
            Attempt::Forbidden
        } else {
            Attempt::Rejected(status)
        }),
{
    if status == 403 {
        Attempt::Forbidden
    } else {
        Attempt::Rejected(status)
    }
}

/// What to do after an attempt.
pub enum Next {
    /// Go on; say that the hub is back where `recovered`, and start the command where `start`.
    Proceed { recovered: bool, start: bool },
    /// Give up: trying again does not help.
    GiveUp,
    /// Try again later; say this first, where it was not said before.
    Retry { report: Option<String> },
}

/// The model of [`Next`].
pub ghost enum NextView {
    Proceed { recovered: bool, start: bool },
    GiveUp,
    Retry { report: Option<Seq<char>> },
}

impl View for Next {
    type V = NextView;

    open spec fn view(&self) -> NextView {
        match self {
            Next::Proceed { recovered, start } => NextView::Proceed {
                recovered: *recovered,
                start: *start,
            },
            Next::GiveUp => NextView::GiveUp,
            Next::Retry { report } => NextView::Retry {
                report: match report {
                    Some(t) => Some(t@),
                    None => None,
                },
            },
        }
    }
}

/// What an outage is called.
pub open spec fn outage_text(a: Attempt) -> Seq<char> {
    match a {
        Attempt::Unreachable(e) => "hub unreachable ("@ + e@ + "); retrying"@,
        Attempt::Rejected(s) => "hub rejected the request (HTTP "@ + dec(s as nat) + "); retrying"@,
        _ => Seq::empty(),
    }
}

/// What to do after an attempt: each outage, and its end, is reported once. Only a key that is
/// not allowed is final. `down` says whether an outage was reported, `started` whether the
/// command was started, which happens when the hub is first connected to; both as they are
/// then, and what to do.
pub open spec fn after_attempt(down: bool, started: bool, a: Attempt) -> (bool, bool, NextView) {
    match a {
        Attempt::Connected => (
            false,
            true,
            NextView::Proceed { recovered: down, start: !started },
        ),
        Attempt::Forbidden => (down, started, NextView::GiveUp),
        _ => (
            true,
            started,
            NextView::Retry {
                report: if down {
                    None
                } else {
                    Some(outage_text(a))
                },
            },
        ),
    }
}

/// Whether an answer starts the command.
pub open spec fn starts(n: NextView) -> bool {
    n matches NextView::Proceed { start, .. } && start
}

/// What to do after an attempt, and whether an outage is reported and the command started then.
pub fn next_step(down: bool, started: bool, a: Attempt) -> (r: (bool, bool, Next))
    ensures
        (r.0, r.1, r.2@) == after_attempt(down, started, a),
        starts(r.2@) <==> a is Connected && !started,
        r.1 == (started || a is Connected),
{
    match a {
        Attempt::Connected => (false, true, Next::Proceed { recovered: down, start: !started }),
        Attempt::Forbidden => (down, started, Next::GiveUp),
        Attempt::Unreachable(e) => {
            if down {
                (true, started, Next::Retry { report: None })
            } else {
                let mut t = String::from_str("hub unreachable (");
                t.append(e.as_str());
                t.append("); retrying");
                (true, started, Next::Retry { report: Some(t) })
            }
        },
        Attempt::Rejected(s) => {
            if down {
                (true, started, Next::Retry { report: None })
            } else {
                let mut t = String::from_str("hub rejected the request (HTTP ");
                push_dec(&mut t, s as u64);
                t.append("); retrying");
                (true, started, Next::Retry { report: Some(t) })
            }
        },
    }
}

/// What is known after attempts, in turn, from the start on.
pub open spec fn after_attempts(s: Seq<Attempt>) -> (bool, bool)
    decreases s.len(),
{
    if s.len() == 0 {
        (false, false)
    } else {
        let (down, started) = after_attempts(s.drop_last());
        let (d, t, _) = after_attempt(down, started, s.last());
        (d, t)
    }
}

/// Whether the `i`-th of some attempts starts the command.
pub open spec fn starts_at(s: Seq<Attempt>, i: int) -> bool {
    let (down, started) = after_attempts(s.take(i));
    starts(after_attempt(down, started, s[i]).2)
}

proof fn lemma_started(s: Seq<Attempt>, k: int)
    requires
        0 <= k <= s.len(),
    ensures
        after_attempts(s.take(k)).1 <==> exists|i: int| 0 <= i < k && #[trigger] s[i] is Connected,
    decreases k,
{
    if k > 0 {
        lemma_started(s, k - 1);
        assert(s.take(k).drop_last() =~= s.take(k - 1));
        assert(s.take(k).last() == s[k - 1]);
        if s[k - 1] is Connected {
            assert(exists|i: int| 0 <= i < k && #[trigger] s[i] is Connected);
        }
        if exists|i: int| 0 <= i < k && #[trigger] s[i] is Connected {
            let i = choose|i: int| 0 <= i < k && #[trigger] s[i] is Connected;
            if i < k - 1 {
                assert(exists|j: int| 0 <= j < k - 1 && #[trigger] s[j] is Connected);
            }
        }
    }
}

/// The command is started by the attempt that first connects, and by no other: at most once,
/// and never before a hub has taken the key.
pub proof fn law_command_starts_once(s: Seq<Attempt>)
    ensures
        forall|i: int|
            0 <= i < s.len() ==> (#[trigger] starts_at(s, i) <==> s[i] is Connected && forall|j: int|
                0 <= j < i ==> !(#[trigger] s[j] is Connected)),
        forall|i: int, j: int|
            0 <= i < s.len() && 0 <= j < s.len() && #[trigger] starts_at(s, i)
                && #[trigger] starts_at(s, j) ==> i == j,
{
    assert forall|i: int| 0 <= i < s.len() implies (#[trigger] starts_at(s, i) <==> s[i] is Connected
        && forall|j: int| 0 <= j < i ==> !(#[trigger] s[j] is Connected)) by {
        lemma_started(s, i);
    }
    assert forall|i: int, j: int|
        0 <= i < s.len() && 0 <= j < s.len() && #[trigger] starts_at(s, i) && #[trigger] starts_at(
            s,
            j,
        ) implies i == j by {
        assert(s[i] is Connected && s[j] is Connected);
    }
}

/// What happens on a connection.
#[derive(Debug, Clone, Copy, PartialEq, Eq, Structural)]
pub enum Event {
    /// The terminal is gone.
    LiveEnded,
    /// The frame changed; whether there is a message for it.
    Changed(bool),
    /// It is time for a ping.
    Tick,
    /// A pong came.
    Pong,
    /// The hub closed the connection, or it broke.
    Gone,
    /// A message could not be sent in time.
    SendFailed,
    /// Another message came.
    Other,
}

/// What to do then.
#[derive(Debug, Clone, Copy, PartialEq, Eq, Structural)]
pub enum Action {
    Nothing,
    SendDelta,
    SendPing,
    /// There is nothing left to push.
    EndLive,
    /// Connect anew.
    EndConnection,
}

/// What an event asks for, and the pings without an answer after it.
pub open spec fn session_next(missed: u32, e: Event) -> (u32, Action) {
    match e {
        Event::LiveEnded => (missed, Action::EndLive),
        Event::Changed(true) => (missed, Action::SendDelta),
        Event::Changed(false) => (missed, Action::Nothing),
        Event::Tick => if missed >= MAX_MISSED_PONGS {
            (missed, Action::EndConnection)
        } else {
            ((missed + 1) as u32, Action::SendPing)
        },
        Event::Pong => (0, Action::Nothing),
        Event::Gone => (missed, Action::EndConnection),
        Event::SendFailed => (missed, Action::EndConnection),
        Event::Other => (missed, Action::Nothing),
    }
}

/// What an event asks for, and the pings without an answer after it.
pub fn session_step(missed: u32, e: Event) -> (r: (u32, Action))
    ensures
        r == session_next(missed, e),
{
    match e {
        Event::LiveEnded => (missed, Action::EndLive),
        Event::Changed(true) => (missed, Action::SendDelta),
        Event::Changed(false) => (missed, Action::Nothing),
        Event::Tick => if missed >= MAX_MISSED_PONGS {
            (missed, Action::EndConnection)
        } else {
            (missed + 1, Action::SendPing)
        },
        Event::Pong => (0, Action::Nothing),
        Event::Gone => (missed, Action::EndConnection),
        Event::SendFailed => (missed, Action::EndConnection),
        Event::Other => (missed, Action::Nothing),
    }
}

/// The pings without an answer after `n` ticks with nothing between them.
pub open spec fn silent_ticks(n: nat) -> (u32, Action)
    decreases n,
{
    if n == 0 {
        (0, Action::Nothing)
    } else {
        session_next(silent_ticks((n - 1) as nat).0, Event::Tick)
    }
}

/// A hub that answers no ping is pinged [`MAX_MISSED_PONGS`] times and given up at the tick
/// after them.
pub proof fn law_silent_hub_is_given_up(n: nat)
    requires
        n >= 1,
    ensures
        silent_ticks(n).1 == (if n <= MAX_MISSED_PONGS {
            Action::SendPing
        } else {
            Action::EndConnection
        }),
        silent_ticks(n).0 == (if n <= MAX_MISSED_PONGS {
            n as u32
        } else {
            MAX_MISSED_PONGS
        }),
    decreases n,
{
    if n > 1 {
        law_silent_hub_is_given_up((n - 1) as nat);
    } else {
        assert(silent_ticks(0).0 == 0);
    }
}

} // verus!
