//! A viewer over SSH: whom it shows, in which size, and when it ends.
use crate::ansi::{paint, painted};
use crate::diff::Live;
use crate::hub::HubState;
use crate::model::{Frame, FrameView};
use vstd::prelude::*;

verus! {

/// Which sessions are shown: one, whoever asks, or those of a hub, by the name that is asked
/// for.
pub enum Target {
    Single(Live),
    Hub(HubState),
}

impl Target {
    /// What holds of every target.
    pub open spec fn wf(&self) -> bool {
        match self {
            Target::Single(_) => true,
            Target::Hub(h) => h.wf(),
        }
    }

    /// The session that is shown under a name.
    pub fn resolve(&self, user: &str) -> (r: Option<&Live>)
        requires
            self.wf(),
        ensures
            match self {
                Target::Single(l) => r == Some(l),
                Target::Hub(h) => {
                    &&& r is Some <==> h@.viewed(user@) is Some
                    &&& r matches Some(l) ==> h@.viewed(user@) matches Some(s) && l.shown() == s.shown
                        && l.number() == s.number && l.connected() == s.online
                },
            },
    {
        match self {
            Target::Single(l) => Some(l),
            Target::Hub(h) => h.live(user),
        }
    }
}

/// The size of a viewer's terminal.
#[derive(Debug, Clone, Copy, PartialEq, Eq, Structural)]
pub struct Ctl {
    pub cols: u16,
    pub rows: u16,
}

/// A size as it is reported, in sixteen bits; the size before where it is zero.
pub open spec fn reported(now: u16, n: u32) -> u16 {
    if n == 0 {
        now
    } else if n > 0xffff {
        0xffff
    } else {
        n as u16
    }
}

fn take_size(now: u16, n: u32) -> (r: u16)
    ensures
        r == reported(now, n),
{
    if n == 0 {
        now
    } else if n > 0xffff {
        0xffff
    } else {
        n as u16
    }
}

impl Ctl {
    /// The size before any is reported.
    pub fn new() -> (r: Self)
        ensures
            r == (Ctl { cols: 80, rows: 24 }),
    {
        Ctl { cols: 80, rows: 24 }
    }

    /// Take a reported size.
    pub fn set_size(&mut self, cols: u32, rows: u32)
        ensures
            final(self).cols == reported(old(self).cols, cols),
            final(self).rows == reported(old(self).rows, rows),
    {
        self.cols = take_size(self.cols, cols);
        self.rows = take_size(self.rows, rows);
    }
}

/// Whether what a viewer typed ends the view: one of `q`, Ctrl-C and Ctrl-D, alone.
pub fn quits(input: &[u8]) -> (r: bool)
    ensures
        r == (input@.len() == 1 && (input@[0] == 0x71 || input@[0] == 3 || input@[0] == 4)),
{
    input.len() == 1 && (input[0] == 0x71 || input[0] == 3 || input[0] == 4)
}

/// What a request for a shell is answered.
#[derive(Debug, Clone, Copy, PartialEq, Eq, Structural)]
pub enum ShellReply {
    /// There is no terminal to show anything in.
    NeedsTerminal,
    /// No session has the name.
    UnknownSession,
    /// Show the session.
    Show,
    /// The channel is not there.
    Fail,
}

/// What a request for a shell is answered.
pub fn shell_reply(saw_pty: bool, known: bool, channel: bool) -> (r: ShellReply)
    ensures
        r == (if !saw_pty {
            ShellReply::NeedsTerminal
        } else if !known {
            ShellReply::UnknownSession
        } else if channel {
            ShellReply::Show
        } else {
            ShellReply::Fail
        }),
{
    if !saw_pty {
        ShellReply::NeedsTerminal
    } else if !known {
        ShellReply::UnknownSession
    } else if channel {
        ShellReply::Show
    } else {
        ShellReply::Fail
    }
}

/// What a viewer's terminal is sent first: its alternate screen, empty, without a cursor.
pub const ENTER: &'static str = "\x1b[?1049h\x1b[?25l\x1b[2J";

/// What it is sent last.
pub const LEAVE: &'static str = "\x1b[?1049l\x1b[?25h";

/// What happens to a view.
pub enum ViewEvent {
    /// There is a new frame, or there were several.
    Tick,
    /// There will be no more.
    PublisherGone,
    /// The terminal has another size.
    Resized,
    /// The viewer typed something.
    Input(Vec<u8>),
    /// The viewer is gone.
    ViewerGone,
}

/// Whether what happened ends the view.
pub open spec fn ends_view(e: ViewEvent) -> bool {
    match e {
        ViewEvent::Tick | ViewEvent::Resized => false,
        ViewEvent::PublisherGone | ViewEvent::ViewerGone => true,
        ViewEvent::Input(b) => b@.len() == 1 && (b@[0] == 0x71 || b@[0] == 3 || b@[0] == 4),
    }
}

/// What a viewer's terminal shows: the last frame that was painted, with its number.
pub struct ViewLoop {
    last: Option<(u64, Frame)>,
}

impl ViewLoop {
    /// The number and the frame that the terminal shows.
    pub closed spec fn painted(&self) -> Option<(u64, FrameView)> {
        match self.last {
            Some((n, f)) => Some((n, f@)),
            None => None,
        }
    }

    /// A terminal that shows nothing yet.
    pub fn new() -> (r: Self)
        ensures
            r.painted() is None,
    {
        ViewLoop { last: None }
    }

    /// What takes the terminal of this size to the frame of number `seq`; nothing where it
    /// shows that one.
    pub fn repaint(&mut self, seq: u64, frame: &Frame, size: Ctl) -> (r: Option<String>)
        ensures
            final(self).painted() is Some,
            match old(self).painted() {
                Some((n, was)) => if n == seq {
                    r is None && final(self).painted() == old(self).painted()
                } else {
                    &&& r matches Some(t) && t@ == painted(
                        Some(was),
                        frame@,
                        (size.cols, size.rows),
                    )
                    &&& final(self).painted() == Some((seq, frame@))
                },
                None => {
                    &&& r matches Some(t) && t@ == painted(None, frame@, (size.cols, size.rows))
                    &&& final(self).painted() == Some((seq, frame@))
                },
            },
    {
        let text = match &self.last {
            Some((n, was)) => {
                if *n == seq {
                    return None;
                }
                paint(Some(was), frame, (size.cols, size.rows))
            },
            None => paint(None, frame, (size.cols, size.rows)),
        };
        self.last = Some((seq, frame.clone()));
        Some(text)
    }

    /// Take what happened; whether the view goes on. After a change of size the next frame is
    /// painted whole.
    pub fn on(&mut self, e: ViewEvent) -> (r: bool)
        ensures
            r == !ends_view(e),
            final(self).painted() == (if e is Resized {
                None
            } else {
                old(self).painted()
            }),
    {
        match e {
            ViewEvent::Tick => true,
            ViewEvent::Resized => {
                self.last = None;
                true
            },
            ViewEvent::PublisherGone | ViewEvent::ViewerGone => false,
            ViewEvent::Input(b) => !quits(b.as_slice()),
        }
    }
}

} // verus!
