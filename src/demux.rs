//! The client's reading of the result stream: each record goes to the
//! stdout, stderr or exit channel by its tag, malformed records are
//! skipped, and reading stops at the exit record.

use vstd::prelude::*;
use crate::executor::{SPAWN_FAILED, SessionEvent, closes, initial, run, Channel,
    lemma_exit_once_and_last, lemma_exit_status, lemma_session_completes, lemma_spawn_failure,
    emitted, option_seq};
use crate::protocol::{MessageView, ResultMessage, strings_view};
use crate::codec::{decode_message, message_of, spec_stream_line_of};
use crate::json::json_doc;

verus! {

/// Where the reader sends one decoded record.
#[derive(Debug)]
pub enum Route {
    ToStdout(String),
    ToStderr(String),
    /// Deliver the status and stop reading: nothing follows an exit record.
    ToExit(i32),
    /// The record was malformed: drop it and read on.
    Skip,
}

/// The route of a record that decoded to `m`, or of a malformed one.
pub fn route(m: Option<ResultMessage>) -> (r: Route)
    ensures
        match m {
            None => r is Skip,
            Some(ResultMessage::Stdout(l)) => r is ToStdout && r->ToStdout_0@ == l@,
            Some(ResultMessage::Stderr(l)) => r is ToStderr && r->ToStderr_0@ == l@,
            Some(ResultMessage::Exit(c)) => r == Route::ToExit(c),
        },
{
    match m {
        None => Route::Skip,
        Some(ResultMessage::Stdout(l)) => Route::ToStdout(l),
        Some(ResultMessage::Stderr(l)) => Route::ToStderr(l),
        Some(ResultMessage::Exit(c)) => Route::ToExit(c),
    }
}

/// The message that the record `text` stands for, or `None` where it is
/// malformed.
pub open spec fn decoded(text: Seq<char>) -> Option<MessageView> {
    match spec_stream_line_of(json_doc(text)) {
        None => None,
        Some(v) => message_of(v),
    }
}

/// The route of the record `text`: by its tag, or skipped when malformed.
pub fn read_record(text: &str) -> (r: Route)
    ensures
        match decoded(text@) {
            None => r is Skip,
            Some(MessageView::Stdout(l)) => r is ToStdout && r->ToStdout_0@ == l,
            Some(MessageView::Stderr(l)) => r is ToStderr && r->ToStderr_0@ == l,
            Some(MessageView::Exit(c)) => r == Route::ToExit(c),
        },
{
    route(decode_message(text))
}

/// Whether the reader reads on after routing a record: not after the exit
/// record, and not once a consumer has dropped the channel it pushed to.
pub fn reads_on(route: &Route, delivered: bool) -> (r: bool)
    ensures
        r == (!(*route is ToExit) && delivered),
{
    match route {
        Route::ToExit(_) => false,
        _ => delivered,
    }
}

/// What the three channels have received.
pub struct DeliveredView {
    pub stdout: Seq<Seq<char>>,
    pub stderr: Seq<Seq<char>>,
    pub exit: Option<i32>,
}

/// What the channels receive from the records `recs`, each decoded to a
/// message or to `None` when malformed.
pub open spec fn deliver(recs: Seq<Option<MessageView>>) -> DeliveredView
    decreases recs.len(),
{
    if recs.len() == 0 {
        DeliveredView { stdout: Seq::empty(), stderr: Seq::empty(), exit: None }
    } else {
        let d = deliver(recs.drop_last());
        if d.exit.is_some() {
            d
        } else {
            match recs.last() {
                None => d,
                Some(MessageView::Stdout(l)) => DeliveredView { stdout: d.stdout.push(l), ..d },
                Some(MessageView::Stderr(l)) => DeliveredView { stderr: d.stderr.push(l), ..d },
                Some(MessageView::Exit(c)) => DeliveredView { exit: Some(c), ..d },
            }
        }
    }
}

/// The decoded records as messages.
pub open spec fn lift(recs: Seq<Option<ResultMessage>>) -> Seq<Option<MessageView>> {
    recs.map_values(
        |o: Option<ResultMessage>|
            match o {
                Some(m) => Some(m@),
                None => None,
            },
    )
}

/// Every stdout line of `msgs`, in order.
pub open spec fn stdout_lines(msgs: Seq<MessageView>) -> Seq<Seq<char>>
    decreases msgs.len(),
{
    if msgs.len() == 0 {
        Seq::empty()
    } else {
        match msgs.last() {
            MessageView::Stdout(l) => stdout_lines(msgs.drop_last()).push(l),
            _ => stdout_lines(msgs.drop_last()),
        }
    }
}

/// Every stderr line of `msgs`, in order.
pub open spec fn stderr_lines(msgs: Seq<MessageView>) -> Seq<Seq<char>>
    decreases msgs.len(),
{
    if msgs.len() == 0 {
        Seq::empty()
    } else {
        match msgs.last() {
            MessageView::Stderr(l) => stderr_lines(msgs.drop_last()).push(l),
            _ => stderr_lines(msgs.drop_last()),
        }
    }
}

/// What the channels of one stream received.
#[derive(Debug)]
pub struct Delivered {
    pub stdout: Vec<String>,
    pub stderr: Vec<String>,
    pub exit: Option<i32>,
}

/// Routes the decoded records of a whole stream, in order, up to and
/// including the first exit record.
pub fn demux_messages(recs: Vec<Option<ResultMessage>>) -> (r: Delivered)
    ensures
        strings_view(r.stdout@) == deliver(lift(recs@)).stdout,
        strings_view(r.stderr@) == deliver(lift(recs@)).stderr,
        r.exit == deliver(lift(recs@)).exit,
{
    let mut out = Delivered { stdout: Vec::new(), stderr: Vec::new(), exit: None };
    let ghost all = recs@;
    let n = recs.len();
    let mut rest = recs;
    let mut i: usize = 0;
    proof {
        assert(strings_view(out.stdout@) =~= Seq::<Seq<char>>::empty());
        assert(strings_view(out.stderr@) =~= Seq::<Seq<char>>::empty());
        assert(lift(all).subrange(0, 0) =~= Seq::<Option<MessageView>>::empty());
    }
    while i < n
        invariant
            0 <= i <= all.len(),
            n == all.len(),
            rest@ == all.subrange(i as int, all.len() as int),
            strings_view(out.stdout@) == deliver(lift(all).subrange(0, i as int)).stdout,
            strings_view(out.stderr@) == deliver(lift(all).subrange(0, i as int)).stderr,
            out.exit == deliver(lift(all).subrange(0, i as int)).exit,
        decreases all.len() - i,
    {
        let ghost sub = lift(all).subrange(0, i + 1);
        assert(sub.drop_last() =~= lift(all).subrange(0, i as int));
        let m = rest.remove(0);
        assert(m == all[i as int]);
        assert(rest@ =~= all.subrange(i + 1, all.len() as int));
        if out.exit.is_none() {
            let ghost prev_out = out.stdout@;
            let ghost prev_err = out.stderr@;
            match route(m) {
                Route::ToStdout(l) => {
                    out.stdout.push(l);
                    proof {
                        assert(strings_view(out.stdout@) =~= strings_view(prev_out).push(l@));
                    }
                },
                Route::ToStderr(l) => {
                    out.stderr.push(l);
                    proof {
                        assert(strings_view(out.stderr@) =~= strings_view(prev_err).push(l@));
                    }
                },
                Route::ToExit(c) => {
                    out.exit = Some(c);
                },
                Route::Skip => {},
            }
        }
        i = i + 1;
    }
    proof {
        assert(lift(all).subrange(0, all.len() as int) =~= lift(all));
    }
    out
}

/// The decoded texts of `recs`.
pub open spec fn decoded_all(recs: Seq<String>) -> Seq<Option<MessageView>> {
    recs.map_values(|t: String| decoded(t@))
}

/// Routes the records of a whole stream, given as their texts, in order,
/// up to and including the first exit record; malformed ones are skipped.
pub fn demux_records(recs: Vec<String>) -> (r: Delivered)
    ensures
        strings_view(r.stdout@) == deliver(decoded_all(recs@)).stdout,
        strings_view(r.stderr@) == deliver(decoded_all(recs@)).stderr,
        r.exit == deliver(decoded_all(recs@)).exit,
{
    let mut out = Delivered { stdout: Vec::new(), stderr: Vec::new(), exit: None };
    let ghost all = decoded_all(recs@);
    let mut i: usize = 0;
    proof {
        assert(strings_view(out.stdout@) =~= Seq::<Seq<char>>::empty());
        assert(strings_view(out.stderr@) =~= Seq::<Seq<char>>::empty());
        assert(all.subrange(0, 0) =~= Seq::<Option<MessageView>>::empty());
    }
    while i < recs.len()
        invariant
            0 <= i <= recs.len(),
            all == decoded_all(recs@),
            strings_view(out.stdout@) == deliver(all.subrange(0, i as int)).stdout,
            strings_view(out.stderr@) == deliver(all.subrange(0, i as int)).stderr,
            out.exit == deliver(all.subrange(0, i as int)).exit,
        decreases recs.len() - i,
    {
        let ghost sub = all.subrange(0, i + 1);
        assert(sub.drop_last() =~= all.subrange(0, i as int));
        assert(sub.last() == decoded(recs@[i as int]@));
        if out.exit.is_none() {
            let ghost prev_out = out.stdout@;
            let ghost prev_err = out.stderr@;
            match read_record(recs[i].as_str()) {
                Route::ToStdout(l) => {
                    out.stdout.push(l);
                    proof {
                        assert(strings_view(out.stdout@) =~= strings_view(prev_out).push(l@));
                    }
                },
                Route::ToStderr(l) => {
                    out.stderr.push(l);
                    proof {
                        assert(strings_view(out.stderr@) =~= strings_view(prev_err).push(l@));
                    }
                },
                Route::ToExit(c) => {
                    out.exit = Some(c);
                },
                Route::Skip => {},
            }
        }
        i = i + 1;
    }
    proof {
        assert(all.subrange(0, recs.len() as int) =~= all);
    }
    out
}

/// Why `wait` gives no status.
#[derive(Clone, Copy, Debug, PartialEq, Eq, Structural)]
pub enum WaitError {
    /// The stream ended, or its reader stopped, before an exit record came.
    ProtocolViolation,
    /// The server reported that the program could not be started.
    SpawnFailed,
}

/// What `wait` reports when the exit channel holds `exit`: the delivered
/// status, a spawn failure, or a stream that ended without an exit record.
pub open spec fn spec_wait_outcome(exit: Option<i32>) -> Result<i32, WaitError> {
    match exit {
        None => Err(WaitError::ProtocolViolation),
        Some(c) => if c == SPAWN_FAILED {
            Err(WaitError::SpawnFailed)
        } else {
            Ok(c)
        },
    }
}

/// The outcome of `wait` once the exit channel has closed, holding the
/// delivered status if one was delivered.
pub fn wait_outcome(exit: Option<i32>) -> (r: Result<i32, WaitError>)
    ensures
        r == spec_wait_outcome(exit),
        exit is None ==> r == Err::<i32, WaitError>(WaitError::ProtocolViolation),
        exit == Some(SPAWN_FAILED) ==> r == Err::<i32, WaitError>(WaitError::SpawnFailed),
        exit is Some && exit != Some(SPAWN_FAILED) ==> r == Ok::<i32, WaitError>(exit.unwrap()),
{
    match exit {
        None => Err(WaitError::ProtocolViolation),
        Some(c) => if c == SPAWN_FAILED {
            Err(WaitError::SpawnFailed)
        } else {
            Ok(c)
        },
    }
}

/// A malformed record anywhere in the stream changes nothing that the
/// channels receive: it is skipped, and every record after it is still
/// delivered.
pub proof fn lemma_malformed_skipped(a: Seq<Option<MessageView>>, b: Seq<Option<MessageView>>)
    ensures
        deliver(a + seq![None] + b) == deliver(a + b),
    decreases b.len(),
{
    if b.len() == 0 {
        assert((a + seq![None] + b).drop_last() =~= a);
        assert(a + b =~= a);
    } else {
        lemma_malformed_skipped(a, b.drop_last());
        assert((a + seq![None] + b).drop_last() =~= a + seq![None] + b.drop_last());
        assert((a + b).drop_last() =~= a + b.drop_last());
        assert((a + seq![None] + b).last() == (a + b).last());
    }
}

/// The messages as well-formed records.
pub open spec fn somes(msgs: Seq<MessageView>) -> Seq<Option<MessageView>> {
    msgs.map_values(|m: MessageView| Some(m))
}

/// The status of the exit record that ends `msgs`, if one does.
pub open spec fn final_exit(msgs: Seq<MessageView>) -> Option<i32> {
    if msgs.len() > 0 && msgs.last() is Exit {
        Some(msgs.last()->Exit_0)
    } else {
        None
    }
}

/// On a stream in which nothing follows an exit record, every stdout line
/// reaches the stdout channel and every stderr line the stderr channel, each
/// once and in the order sent, and the exit channel gets the status of the
/// closing exit record.
pub proof fn lemma_session_delivery(msgs: Seq<MessageView>)
    requires
        forall|i: int| 0 <= i < msgs.len() - 1 ==> !(#[trigger] msgs[i] is Exit),
    ensures
        deliver(somes(msgs)) == (DeliveredView {
            stdout: stdout_lines(msgs),
            stderr: stderr_lines(msgs),
            exit: final_exit(msgs),
        }),
    decreases msgs.len(),
{
    if msgs.len() > 0 {
        let prev = msgs.drop_last();
        assert forall|i: int| 0 <= i < prev.len() - 1 implies !(#[trigger] prev[i] is Exit) by {
            assert(prev[i] == msgs[i]);
        }
        lemma_session_delivery(prev);
        assert(somes(msgs).drop_last() =~= somes(prev));
        if prev.len() > 0 {
            assert(prev.last() == msgs[prev.len() - 1]);
        }
    }
}

/// A stream that holds no exit record makes `wait` fail instead of
/// reporting a status.
pub proof fn lemma_missing_exit_fails(recs: Seq<Option<MessageView>>)
    requires
        forall|i: int| 0 <= i < recs.len() ==> !(#[trigger] recs[i] matches Some(MessageView::Exit(_))),
    ensures
        spec_wait_outcome(deliver(recs).exit) == Err::<i32, WaitError>(WaitError::ProtocolViolation),
    decreases recs.len(),
{
    if recs.len() > 0 {
        let prev = recs.drop_last();
        assert forall|i: int| 0 <= i < prev.len() implies !(#[trigger] prev[i] matches Some(MessageView::Exit(_))) by {
            assert(prev[i] == recs[i]);
        }
        lemma_missing_exit_fails(prev);
        assert(!(recs[recs.len() - 1] matches Some(MessageView::Exit(_))));
    }
}

/// When the program ran, both its streams ended and it exited with status
/// `c`, what the server writes makes the client's `wait` report `c`.
pub proof fn lemma_wait_reports_status(events: Seq<SessionEvent>, c: i32)
    requires
        c != SPAWN_FAILED,
        exists|i: int| 0 <= i < events.len() && closes(#[trigger] events[i], Channel::Stdout),
        exists|i: int| 0 <= i < events.len() && closes(#[trigger] events[i], Channel::Stderr),
        exists|i: int| 0 <= i < events.len() && #[trigger] events[i] is Exited,
        forall|i: int| 0 <= i < events.len() ==> !(#[trigger] events[i] is SpawnFailed),
        forall|i: int| 0 <= i < events.len() && #[trigger] events[i] is Exited
            ==> events[i]->Exited_0 == c,
    ensures
        spec_wait_outcome(deliver(somes(run(initial(), events).1)).exit) == Ok::<i32, WaitError>(c),
{
    lemma_session_completes(events);
    lemma_exit_status(events, c);
    lemma_exit_once_and_last(events);
    lemma_session_delivery(run(initial(), events).1);
}

/// When the program could not be started, the client's `wait` reports that
/// failure.
pub proof fn lemma_spawn_failure_observed(events: Seq<SessionEvent>)
    requires
        events.len() > 0,
        events[0] is SpawnFailed,
    ensures
        spec_wait_outcome(deliver(somes(run(initial(), events).1)).exit) == Err::<i32, WaitError>(
            WaitError::SpawnFailed,
        ),
{
    lemma_spawn_failure(events);
    lemma_session_delivery(run(initial(), events).1);
}

/// The lines that the child wrote to the stream `ch`, in the order read.
pub open spec fn event_lines(events: Seq<SessionEvent>, ch: Channel) -> Seq<Seq<char>>
    decreases events.len(),
{
    if events.len() == 0 {
        Seq::empty()
    } else {
        let prev = event_lines(events.drop_last(), ch);
        match events.last() {
            SessionEvent::Line(c, l) => if c == ch {
                prev.push(l@)
            } else {
                prev
            },
            _ => prev,
        }
    }
}

/// The server writes one stdout record for each line read from the child's
/// stdout, and one stderr record for each line read from its stderr, in the
/// order read, as long as the session has not ended.
pub proof fn lemma_written_lines(events: Seq<SessionEvent>)
    requires
        events.len() > 0 ==> !run(initial(), events.drop_last()).0.finished,
    ensures
        stdout_lines(run(initial(), events).1) == event_lines(events, Channel::Stdout),
        stderr_lines(run(initial(), events).1) == event_lines(events, Channel::Stderr),
    decreases events.len(),
{
    if events.len() > 0 {
        let prev = events.drop_last();
        if prev.len() > 0 {
            if run(initial(), prev.drop_last()).0.finished {
                assert(run(initial(), prev).0 == run(initial(), prev.drop_last()).0);
            }
        }
        lemma_written_lines(prev);
        let (t, out) = run(initial(), prev);
        let e = events.last();
        let all = out + option_seq(emitted(t, e));
        assert(run(initial(), events).1 == all);
        match emitted(t, e) {
            Some(m) => {
                assert(all.drop_last() =~= out);
                assert(all.last() == m);
            },
            None => {
                assert(all =~= out);
            },
        }
    }
}

/// Every line that the child wrote to its stdout before the session ended
/// reaches the client's stdout channel, once and in the order written; the
/// same holds of stderr.
pub proof fn lemma_lines_delivered(events: Seq<SessionEvent>)
    requires
        events.len() > 0 ==> !run(initial(), events.drop_last()).0.finished,
    ensures
        deliver(somes(run(initial(), events).1)).stdout == event_lines(events, Channel::Stdout),
        deliver(somes(run(initial(), events).1)).stderr == event_lines(events, Channel::Stderr),
{
    lemma_exit_once_and_last(events);
    lemma_session_delivery(run(initial(), events).1);
    lemma_written_lines(events);
}

/// A record text that stands for no message, anywhere among the records of a
/// stream, changes nothing that `demux_records` delivers: every record after
/// it is still routed as before.
pub proof fn lemma_malformed_record_skipped(a: Seq<String>, bad: String, b: Seq<String>)
    requires
        decoded(bad@) is None,
    ensures
        deliver(decoded_all(a + seq![bad] + b)) == deliver(decoded_all(a + b)),
{
    assert(decoded_all(a + seq![bad] + b) =~= decoded_all(a) + seq![None] + decoded_all(b));
    assert(decoded_all(a + b) =~= decoded_all(a) + decoded_all(b));
    lemma_malformed_skipped(decoded_all(a), decoded_all(b));
}

} // verus!
