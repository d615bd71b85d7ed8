//! The progress reporter: one live status line per pipeline stage. The
//! rendering loop owns a `Reporter` and feeds it events — a new message from
//! the build's output, a redraw tick, or the stop signal — and this module
//! fixes what each event does to the reporter's state. Lines are truncated
//! to the display width before they are shown.

use vstd::prelude::*;

use crate::digits::{append_bytes, copy_bytes};

verus! {

/// Width, in bytes, of the live status line.
pub const MAX_LINE_LENGTH: usize = 110;

/// A status line cut to the display width.
pub open spec fn truncated(s: Seq<u8>) -> Seq<u8> {
    if s.len() <= MAX_LINE_LENGTH {
        s
    } else {
        s.take(MAX_LINE_LENGTH as int)
    }
}

/// Truncate a status line to the display width.
pub fn truncate_line(line: &[u8]) -> (r: Vec<u8>)
    ensures
        r@ == truncated(line@),
{
    let n: usize = if line.len() <= MAX_LINE_LENGTH {
        line.len()
    } else {
        MAX_LINE_LENGTH
    };
    let r = crate::digits::copy_range(line, 0, n);
    assert(line@.len() <= MAX_LINE_LENGTH ==> r@ =~= line@);
    r
}

/// The status line a stage shows for one line of build output:
/// `<header>: <line>`, the line truncated to the display width.
pub fn stage_message(header: &[u8], line: &[u8]) -> (r: Vec<u8>)
    ensures
        r@ == header@ + seq![58u8, 32u8] + truncated(line@),
{
    let mut r = copy_bytes(header);
    r.push(58u8);
    r.push(32u8);
    let t = truncate_line(line);
    append_bytes(&mut r, t.as_slice());
    assert(r@ =~= header@ + seq![58u8, 32u8] + truncated(line@));
    r
}

/// The reporter's rendering state: the message on display, how many redraws
/// have happened (the spinner's animation frame), and whether the stop
/// signal has arrived.
pub struct Reporter {
    pub message: Vec<u8>,
    pub ticks: u64,
    pub stopped: bool,
}

/// An event fed to the reporter by the stage that owns it.
pub enum ReporterEvent {
    /// New status text to display.
    Message(Vec<u8>),
    /// A redraw on the tick interval, with no new text.
    Tick,
    /// All output is consumed and the process is finished: stop rendering.
    Stop,
}

impl Reporter {
    pub fn new(label: &[u8]) -> (r: Reporter)
        ensures
            r.message@ == truncated(label@),
            r.ticks == 0,
            !r.stopped,
    {
        Reporter { message: truncate_line(label), ticks: 0, stopped: false }
    }

    /// Feed one event. A message replaces the displayed line (truncated) and
    /// redraws; a tick redraws; stop ends rendering, after which no event
    /// changes anything — the terminal is left with the final line intact.
    pub fn step(&mut self, ev: ReporterEvent)
        ensures
            old(self).stopped ==> *final(self) == *old(self),
            !old(self).stopped ==> match ev {
                ReporterEvent::Message(m) => {
                    &&& final(self).message@ == truncated(m@)
                    &&& final(self).ticks == spec_bump(old(self).ticks)
                    &&& !final(self).stopped
                },
                ReporterEvent::Tick => {
                    &&& final(self).message == old(self).message
                    &&& final(self).ticks == spec_bump(old(self).ticks)
                    &&& !final(self).stopped
                },
                ReporterEvent::Stop => {
                    &&& final(self).message == old(self).message
                    &&& final(self).ticks == old(self).ticks
                    &&& final(self).stopped
                },
            },
    {
        if self.stopped {
            return ;
        }
        match ev {
            ReporterEvent::Message(m) => {
                self.message = truncate_line(m.as_slice());
                self.bump();
            },
            ReporterEvent::Tick => {
                self.bump();
            },
            ReporterEvent::Stop => {
                self.stopped = true;
            },
        }
    }

    fn bump(&mut self)
        ensures
            final(self).ticks == spec_bump(old(self).ticks),
            final(self).message == old(self).message,
            final(self).stopped == old(self).stopped,
    {
        if self.ticks < u64::MAX {
            self.ticks = self.ticks + 1;
        }
    }
}

/// The animation frame count after one redraw: saturating.
pub open spec fn spec_bump(t: u64) -> u64 {
    if t < u64::MAX {
        (t + 1) as u64
    } else {
        t
    }
}

} // verus!
