//! The server's decisions for one connection: what to write for each thing
//! that happens to the child, so that exactly one exit record ends the
//! session, after every line.

use vstd::prelude::*;
use crate::protocol::{MessageView, ResultMessage};

verus! {

/// The status reported when the program could not be started. On Unix a
/// child that ran reports a status from 0 to 255 (128 plus the signal
/// number when a signal ended it), so none reports this one.
pub const SPAWN_FAILED: i32 = -1;

/// One of the child's two output streams.
#[derive(Clone, Copy, Debug, PartialEq, Eq, Structural)]
pub enum Channel {
    Stdout,
    Stderr,
}

/// What the server learns about the child, in the order it learns it.
#[derive(Debug)]
pub enum SessionEvent {
    /// The program could not be started.
    SpawnFailed,
    /// A line was read from one of the streams, without its newline.
    Line(Channel, String),
    /// One of the streams reached its end.
    Closed(Channel),
    /// The child was waited on and ended with this status.
    Exited(i32),
}

/// Where the session stands.
#[derive(Clone, Copy, Debug)]
pub struct SessionState {
    pub stdout_open: bool,
    pub stderr_open: bool,
    pub status: Option<i32>,
    pub finished: bool,
}

/// The state before anything has happened.
pub open spec fn initial() -> SessionState {
    SessionState { stdout_open: true, stderr_open: true, status: None, finished: false }
}

/// The state after the event `e`.
pub open spec fn next_state(s: SessionState, e: SessionEvent) -> SessionState {
    if s.finished {
        s
    } else {
        match e {
            SessionEvent::SpawnFailed => SessionState { finished: true, ..s },
            SessionEvent::Line(_, _) => s,
            SessionEvent::Closed(ch) => {
                let t = match ch {
                    Channel::Stdout => SessionState { stdout_open: false, ..s },
                    Channel::Stderr => SessionState { stderr_open: false, ..s },
                };
                SessionState { finished: ready(t), ..t }
            },
            SessionEvent::Exited(c) => {
                let t = SessionState { status: Some(c), ..s };
                SessionState { finished: ready(t), ..t }
            },
        }
    }
}

/// Both streams have ended and the status is known, so the exit record can
/// go out.
pub open spec fn ready(s: SessionState) -> bool {
    !s.stdout_open && !s.stderr_open && s.status.is_some()
}

/// The message written for the event `e`, if any.
pub open spec fn emitted(s: SessionState, e: SessionEvent) -> Option<MessageView> {
    if s.finished {
        None
    } else {
        match e {
            SessionEvent::SpawnFailed => Some(MessageView::Exit(SPAWN_FAILED)),
            SessionEvent::Line(Channel::Stdout, l) => Some(MessageView::Stdout(l@)),
            SessionEvent::Line(Channel::Stderr, l) => Some(MessageView::Stderr(l@)),
            _ => {
                let t = next_state(s, e);
                if t.finished {
                    Some(MessageView::Exit(t.status.unwrap()))
                } else {
                    None
                }
            },
        }
    }
}

pub open spec fn option_seq(m: Option<MessageView>) -> Seq<MessageView> {
    match m {
        Some(v) => seq![v],
        None => Seq::empty(),
    }
}

/// The state after `events`, and the messages written on the way.
pub open spec fn run(s: SessionState, events: Seq<SessionEvent>) -> (SessionState, Seq<MessageView>)
    decreases events.len(),
{
    if events.len() == 0 {
        (s, Seq::empty())
    } else {
        let (t, out) = run(s, events.drop_last());
        (next_state(t, events.last()), out + option_seq(emitted(t, events.last())))
    }
}

/// The writer's side of one session.
pub struct Session {
    pub state: SessionState,
}

impl Session {
    pub fn new() -> (r: Session)
        ensures
            r.state == initial(),
    {
        Session {
            state: SessionState { stdout_open: true, stderr_open: true, status: None, finished: false },
        }
    }

    /// True once the exit record has been written: nothing more is.
    pub fn is_finished(&self) -> (r: bool)
        ensures
            r == self.state.finished,
    {
        self.state.finished
    }

    /// Takes the next event and returns the message to write for it.
    pub fn step(&mut self, e: SessionEvent) -> (r: Option<ResultMessage>)
        ensures
            final(self).state == next_state(old(self).state, e),
            r.is_some() == emitted(old(self).state, e).is_some(),
            r.is_some() ==> r.unwrap()@ == emitted(old(self).state, e).unwrap(),
    {
        if self.state.finished {
            return None;
        }
        match e {
            SessionEvent::SpawnFailed => {
                self.state.finished = true;
                Some(ResultMessage::Exit(SPAWN_FAILED))
            },
            SessionEvent::Line(Channel::Stdout, l) => Some(ResultMessage::Stdout(l)),
            SessionEvent::Line(Channel::Stderr, l) => Some(ResultMessage::Stderr(l)),
            SessionEvent::Closed(ch) => {
                match ch {
                    Channel::Stdout => {
                        self.state.stdout_open = false;
                    },
                    Channel::Stderr => {
                        self.state.stderr_open = false;
                    },
                }
                self.finish_if_ready()
            },
            SessionEvent::Exited(c) => {
                self.state.status = Some(c);
                self.finish_if_ready()
            },
        }
    }

    fn finish_if_ready(&mut self) -> (r: Option<ResultMessage>)
        requires
            !old(self).state.finished,
        ensures
            final(self).state == (SessionState { finished: ready(old(self).state), ..old(self).state }),
            r.is_some() == ready(old(self).state),
            r.is_some() ==> r.unwrap()@ == MessageView::Exit(old(self).state.status.unwrap()),
    {
        if !self.state.stdout_open && !self.state.stderr_open {
            match self.state.status {
                Some(c) => {
                    self.state.finished = true;
                    Some(ResultMessage::Exit(c))
                },
                None => None,
            }
        } else {
            None
        }
    }
}

/// Whatever happens, in whatever order: no message follows an exit record,
/// so at most one is written, and the session is finished exactly when the
/// last message written is the exit record.
pub proof fn lemma_exit_once_and_last(events: Seq<SessionEvent>)
    ensures
        forall|i: int| 0 <= i < run(initial(), events).1.len() - 1
            ==> !(#[trigger] run(initial(), events).1[i] is Exit),
        run(initial(), events).0.finished == (run(initial(), events).1.len() > 0
            && run(initial(), events).1.last() is Exit),
    decreases events.len(),
{
    if events.len() > 0 {
        lemma_exit_once_and_last(events.drop_last());
        let (t, out) = run(initial(), events.drop_last());
        let e = events.last();
        let all = run(initial(), events).1;
        assert(all == out + option_seq(emitted(t, e)));
        if !t.finished {
            assert forall|i: int| 0 <= i < out.len() implies !(#[trigger] out[i] is Exit) by {}
        }
        assert forall|i: int| 0 <= i < all.len() - 1 implies !(#[trigger] all[i] is Exit) by {
            if t.finished {
                assert(all == out);
            } else {
                assert(all[i] == out[i]);
            }
        }
    }
}

/// Whether `e` is the end of the stream `ch`.
pub open spec fn closes(e: SessionEvent, ch: Channel) -> bool {
    e is Closed && e->Closed_0 == ch
}

proof fn lemma_progress(events: Seq<SessionEvent>)
    ensures
        !run(initial(), events).0.finished ==> !ready(run(initial(), events).0),
        (exists|i: int| 0 <= i < events.len() && closes(#[trigger] events[i], Channel::Stdout))
            ==> !run(initial(), events).0.stdout_open || run(initial(), events).0.finished,
        (exists|i: int| 0 <= i < events.len() && closes(#[trigger] events[i], Channel::Stderr))
            ==> !run(initial(), events).0.stderr_open || run(initial(), events).0.finished,
        (exists|i: int| 0 <= i < events.len() && #[trigger] events[i] is Exited)
            ==> run(initial(), events).0.status.is_some() || run(initial(), events).0.finished,
    decreases events.len(),
{
    if events.len() > 0 {
        let prev = events.drop_last();
        lemma_progress(prev);
        let n = events.len() - 1;
        if exists|i: int| 0 <= i < events.len() && closes(#[trigger] events[i], Channel::Stdout) {
            let i = choose|i: int| 0 <= i < events.len() && closes(#[trigger] events[i], Channel::Stdout);
            if i < n {
                assert(closes(prev[i], Channel::Stdout));
            }
        }
        if exists|i: int| 0 <= i < events.len() && closes(#[trigger] events[i], Channel::Stderr) {
            let i = choose|i: int| 0 <= i < events.len() && closes(#[trigger] events[i], Channel::Stderr);
            if i < n {
                assert(closes(prev[i], Channel::Stderr));
            }
        }
        if exists|i: int| 0 <= i < events.len() && #[trigger] events[i] is Exited {
            let i = choose|i: int| 0 <= i < events.len() && #[trigger] events[i] is Exited;
            if i < n {
                assert(prev[i] is Exited);
            }
        }
    }
}

/// Once both streams have ended and the child has been waited on, the
/// session is finished and its last message is the exit record.
pub proof fn lemma_session_completes(events: Seq<SessionEvent>)
    requires
        exists|i: int| 0 <= i < events.len() && closes(#[trigger] events[i], Channel::Stdout),
        exists|i: int| 0 <= i < events.len() && closes(#[trigger] events[i], Channel::Stderr),
        exists|i: int| 0 <= i < events.len() && #[trigger] events[i] is Exited,
    ensures
        run(initial(), events).0.finished,
        run(initial(), events).1.len() > 0,
        run(initial(), events).1.last() is Exit,
{
    lemma_progress(events);
    lemma_exit_once_and_last(events);
}

/// When the program ran and ended with status `c`, the exit record of a
/// finished session carries `c`.
pub proof fn lemma_exit_status(events: Seq<SessionEvent>, c: i32)
    requires
        forall|i: int| 0 <= i < events.len() ==> !(#[trigger] events[i] is SpawnFailed),
        forall|i: int| 0 <= i < events.len() && #[trigger] events[i] is Exited
            ==> events[i]->Exited_0 == c,
    ensures
        run(initial(), events).0.status is None || run(initial(), events).0.status == Some(c),
        run(initial(), events).0.finished ==> run(initial(), events).1.last() == MessageView::Exit(c),
    decreases events.len(),
{
    if events.len() > 0 {
        let prev = events.drop_last();
        assert forall|i: int| 0 <= i < prev.len() implies !(#[trigger] prev[i] is SpawnFailed) by {
            assert(prev[i] == events[i]);
        }
        assert forall|i: int| 0 <= i < prev.len() && #[trigger] prev[i] is Exited
            implies prev[i]->Exited_0 == c by {
            assert(prev[i] == events[i]);
        }
        lemma_exit_status(prev, c);
        assert(!(events[events.len() - 1] is SpawnFailed));
    }
}

/// When the program could not be started, the session is that one exit
/// record, carrying the failure status, whatever is reported after it.
pub proof fn lemma_spawn_failure(events: Seq<SessionEvent>)
    requires
        events.len() > 0,
        events[0] is SpawnFailed,
    ensures
        run(initial(), events).0.finished,
        run(initial(), events).1 == seq![MessageView::Exit(SPAWN_FAILED)],
    decreases events.len(),
{
    if events.len() == 1 {
        assert(events.drop_last() =~= Seq::<SessionEvent>::empty());
    } else {
        let prev = events.drop_last();
        assert(prev[0] == events[0]);
        lemma_spawn_failure(prev);
    }
}

} // verus!
