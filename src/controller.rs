use vstd::prelude::*;
use crate::block::{flatten, BlockView, Blocks};
use crate::decode::read_chunk;
use crate::failure::Failure;
use crate::frame::Framing;

verus! {

/// Consecutive failures after which the feed is given up.
pub const FAILURE_LIMIT: usize = 10;

/// Pause between two reads of the feed, in milliseconds.
pub const TICK_MILLIS: u64 = 250;

/// Where the failure policy stands.
#[derive(Clone, Copy, Debug, PartialEq, Eq, Structural)]
pub enum Health {
    /// The last chunk gave a status line.
    Healthy,
    /// A streak of failures is open.
    Degrading,
    /// The feed was given up.
    Aborted,
}

/// The policy's state as plain values: the failures of the open streak, and
/// whether the feed was given up.
pub type ControllerView = (Seq<Failure>, bool);

/// The state before any chunk was read.
pub open spec fn fresh() -> ControllerView {
    (Seq::empty(), false)
}

/// The state after one chunk: `None` where it gave a status line, else its
/// failure. A success clears the streak; the failure that fills the streak
/// gives up the feed, whose log is then handed out and no longer held.
pub open spec fn next_state(s: ControllerView, event: Option<Failure>) -> ControllerView {
    if s.1 {
        s
    } else {
        match event {
            None => fresh(),
            Some(c) => if s.0.len() + 1 >= FAILURE_LIMIT {
                (Seq::empty(), true)
            } else {
                (s.0.push(c), false)
            },
        }
    }
}

/// The failures handed out by the step from `s` on `event`, where that step
/// gives up the feed.
pub open spec fn surfaced(s: ControllerView, event: Option<Failure>) -> Option<Seq<Failure>> {
    if s.1 {
        None
    } else {
        match event {
            Some(c) => if s.0.len() + 1 >= FAILURE_LIMIT {
                Some(s.0.push(c))
            } else {
                None
            },
            None => None,
        }
    }
}

/// The policy's view of a chunk's result.
pub open spec fn event_of(res: Result<Seq<BlockView>, Failure>) -> Option<Failure> {
    match res {
        Ok(_) => None,
        Err(c) => Some(c),
    }
}

/// The health that a state shows.
pub open spec fn health_of(s: ControllerView) -> Health {
    if s.1 {
        Health::Aborted
    } else if s.0.len() == 0 {
        Health::Healthy
    } else {
        Health::Degrading
    }
}

/// What the caller's loop does after one chunk.
pub enum Action {
    /// Show this line in place of the last one.
    Show(String),
    /// Leave the last line shown.
    Keep,
    /// Give up the feed; these are the failures of the final streak.
    Abort(Vec<Failure>),
    /// The feed was given up before: do nothing.
    Halted,
}

/// The action owed from state `s` on a chunk whose result is `res`.
pub open spec fn action_is(a: Action, s: ControllerView, res: Result<Seq<BlockView>, Failure>) -> bool {
    if s.1 {
        a is Halted
    } else {
        match res {
            Ok(bs) => match a {
                Action::Show(line) => line@ == flatten(bs),
                _ => false,
            },
            Err(c) => match surfaced(s, Some(c)) {
                Some(log) => match a {
                    Action::Abort(v) => v@ == log,
                    _ => false,
                },
                None => a is Keep,
            },
        }
    }
}

/// The failure policy of the render loop: counts consecutive failures, keeps
/// their causes, and gives up the feed at `FAILURE_LIMIT` of them.
pub struct Controller {
    log: Vec<Failure>,
    aborted: bool,
}

impl View for Controller {
    type V = ControllerView;

    closed spec fn view(&self) -> ControllerView {
        (self.log@, self.aborted)
    }
}

impl Controller {
    /// The log never holds a full streak.
    pub closed spec fn wf(&self) -> bool {
        self.log@.len() < FAILURE_LIMIT
    }

    /// A policy with no failure seen.
    pub fn new() -> (r: Controller)
        ensures
            r@ == fresh(),
            r.wf(),
    {
        Controller { log: Vec::new(), aborted: false }
    }

    /// Failures in the open streak.
    pub fn failure_count(&self) -> (r: usize)
        ensures
            r == self@.0.len(),
    {
        self.log.len()
    }

    /// The causes of the open streak, oldest first.
    pub fn failures(&self) -> (r: &Vec<Failure>)
        ensures
            r@ == self@.0,
    {
        &self.log
    }

    /// Where the policy stands.
    pub fn health(&self) -> (r: Health)
        ensures
            r == health_of(self@),
    {
        if self.aborted {
            Health::Aborted
        } else if self.log.len() == 0 {
            Health::Healthy
        } else {
            Health::Degrading
        }
    }

    /// Records a chunk that gave a status line.
    pub fn record_success(&mut self)
        requires
            old(self).wf(),
        ensures
            final(self)@ == next_state(old(self)@, None),
            final(self).wf(),
    {
        if !self.aborted {
            self.log = Vec::new();
        }
        proof {
            if !old(self).aborted {
                assert(self.log@ =~= Seq::<Failure>::empty());
            }
        }
    }

    /// Records a failed chunk; returns the streak's causes where this
    /// failure gives up the feed.
    pub fn record_failure(&mut self, cause: Failure) -> (r: Option<Vec<Failure>>)
        requires
            old(self).wf(),
        ensures
            final(self)@ == next_state(old(self)@, Some(cause)),
            match r {
                Some(v) => surfaced(old(self)@, Some(cause)) == Some(v@),
                None => surfaced(old(self)@, Some(cause)) is None,
            },
            final(self).wf(),
    {
        if self.aborted {
            return None;
        }
        self.log.push(cause);
        if self.log.len() >= FAILURE_LIMIT {
            let mut log: Vec<Failure> = Vec::new();
            core::mem::swap(&mut log, &mut self.log);
            self.aborted = true;
            proof {
                assert(self.log@ =~= Seq::<Failure>::empty());
            }
            Some(log)
        } else {
            None
        }
    }

    /// Handles one chunk read from the feed: locates its frame with
    /// `framing`, decodes it, and says what to display or whether to stop.
    pub fn handle(&mut self, framing: Framing, chunk: &[u8]) -> (r: Action)
        requires
            old(self).wf(),
        ensures
            final(self)@ == next_state(old(self)@, event_of(read_chunk(framing, chunk@))),
            action_is(r, old(self)@, read_chunk(framing, chunk@)),
            final(self).wf(),
    {
        if self.aborted {
            return Action::Halted;
        }
        match Blocks::from_chunk(framing, chunk) {
            Ok(blocks) => {
                self.record_success();
                Action::Show(blocks.to_string())
            },
            Err(cause) => match self.record_failure(cause) {
                Some(log) => Action::Abort(log),
                None => Action::Keep,
            },
        }
    }
}

} // verus!
