//! Scheduling decisions of the server: how many workers to run, when an
//! idle server shuts down, and how a reader follows a zip archive that is
//! still being written.

use vstd::prelude::*;

verus! {

/// The number of worker threads for a detected parallelism: 4 when none was
/// detected, and never fewer than 4 nor more than 16.
pub open spec fn spec_worker_count(detected: Option<usize>) -> nat {
    let d: nat = match detected {
        Some(n) => n as nat,
        None => 4,
    };
    if d < 4 { 4 } else if d > 16 { 16 } else { d }
}

/// How many worker threads serve requests.
pub fn worker_count(detected: Option<usize>) -> (r: usize)
    ensures
        r == spec_worker_count(detected),
{
    let d = match detected {
        Some(n) => n,
        None => 4,
    };
    if d < 4 {
        4
    } else if d > 16 {
        16
    } else {
        d
    }
}

/// Law: the pool always has between 4 and 16 workers.
pub proof fn lemma_worker_count_bounds(detected: Option<usize>)
    ensures
        4 <= spec_worker_count(detected) <= 16,
{
}

/// What happened in the idle-timeout loop.
pub enum IdleEvent {
    /// The loop looked at the clock: this much time has passed since the
    /// last request.
    Tick { elapsed_nanos: u128 },
    /// A request arrived while waiting.
    Received,
    /// The wait ended without a request.
    NothingReceived,
    /// Waiting for a request failed.
    ReceiveFailed,
}

/// What the idle-timeout loop does next.
pub enum IdleAction {
    /// Stop serving: the server was idle for the whole timeout.
    ShutDown,
    /// Wait at most this long for the next request.
    WaitFor { nanos: u128 },
    /// Handle the request and restart the idle clock.
    HandleRequest,
    /// Stop serving with the receive error.
    Fail,
}

/// The timeout in nanoseconds.
pub open spec fn timeout_nanos(timeout_secs: u64) -> nat {
    timeout_secs as nat * 1_000_000_000
}

/// The idle-timeout loop's next step after an event: shut down once the
/// server has been idle for the whole timeout, else wait until exactly then;
/// handle a request and restart the clock; shut down when a wait brings
/// nothing; fail when waiting fails.
pub open spec fn spec_idle_step(timeout_secs: u64, event: IdleEvent) -> IdleAction {
    match event {
        IdleEvent::Tick { elapsed_nanos } => if elapsed_nanos >= timeout_nanos(timeout_secs) {
            IdleAction::ShutDown
        } else {
            IdleAction::WaitFor { nanos: (timeout_nanos(timeout_secs) - elapsed_nanos) as u128 }
        },
        IdleEvent::Received => IdleAction::HandleRequest,
        IdleEvent::NothingReceived => IdleAction::ShutDown,
        IdleEvent::ReceiveFailed => IdleAction::Fail,
    }
}

/// The idle-timeout loop's next step after an event (see [`spec_idle_step`]).
pub fn idle_step(timeout_secs: u64, event: IdleEvent) -> (a: IdleAction)
    ensures
        a == spec_idle_step(timeout_secs, event),
{
    match event {
        IdleEvent::Tick { elapsed_nanos } => {
            let timeout: u128 = timeout_secs as u128 * 1_000_000_000;
            if elapsed_nanos >= timeout {
                IdleAction::ShutDown
            } else {
                IdleAction::WaitFor { nanos: timeout - elapsed_nanos }
            }
        },
        IdleEvent::Received => IdleAction::HandleRequest,
        IdleEvent::NothingReceived => IdleAction::ShutDown,
        IdleEvent::ReceiveFailed => IdleAction::Fail,
    }
}

/// Law: one turn of the idle loop (a look at the clock, then a wait for a
/// request) shuts the server down only after it has been idle for the whole
/// timeout: at once when the clock already shows the timeout, or when a
/// wait that ends exactly at the deadline brings no request. A request is
/// handled and restarts the clock; a failed wait ends the loop with an error.
pub proof fn lemma_idle_turn(timeout_secs: u64, elapsed_nanos: u128, outcome: IdleEvent)
    requires
        !(outcome is Tick),
    ensures
        spec_idle_step(timeout_secs, IdleEvent::Tick { elapsed_nanos }) is ShutDown
            <==> elapsed_nanos >= timeout_nanos(timeout_secs),
        spec_idle_step(timeout_secs, IdleEvent::Tick { elapsed_nanos }) matches IdleAction::WaitFor { nanos }
            ==> elapsed_nanos + nanos == timeout_nanos(timeout_secs) && nanos > 0,
        elapsed_nanos < timeout_nanos(timeout_secs) ==> (spec_idle_step(timeout_secs, outcome) is ShutDown
            <==> outcome is NothingReceived),
        spec_idle_step(timeout_secs, outcome) is HandleRequest <==> outcome is Received,
        spec_idle_step(timeout_secs, outcome) is Fail <==> outcome is ReceiveFailed,
{
}

/// One turn of the idle loop: the time since the last request (or since
/// the start) when the clock is read, and how the wait that follows ended
/// (a request, nothing, or a failure).
pub struct IdleTurn {
    pub elapsed_nanos: u128,
    pub outcome: IdleEvent,
}

/// What a turn leads to: the clock's verdict, or, when the clock says to
/// wait, the verdict on how the wait ended.
pub open spec fn turn_action(timeout_secs: u64, turn: IdleTurn) -> IdleAction {
    match spec_idle_step(timeout_secs, IdleEvent::Tick { elapsed_nanos: turn.elapsed_nanos }) {
        IdleAction::WaitFor { .. } => spec_idle_step(timeout_secs, turn.outcome),
        a => a,
    }
}

/// How long the server has been idle at the end of a turn, when a wait that
/// brings nothing lasts as long as it was asked to.
pub open spec fn idle_at_end(timeout_secs: u64, turn: IdleTurn) -> nat {
    match spec_idle_step(timeout_secs, IdleEvent::Tick { elapsed_nanos: turn.elapsed_nanos }) {
        IdleAction::WaitFor { nanos } => if turn.outcome is NothingReceived {
            turn.elapsed_nanos as nat + nanos as nat
        } else {
            turn.elapsed_nanos as nat
        },
        _ => turn.elapsed_nanos as nat,
    }
}

/// Law (the whole idle loop): in a run of turns where every turn but the
/// last went on serving, each of those turns received a request before the
/// deadline; the last turn shuts the server down only once it has been idle
/// for at least the timeout; when no request arrives before the deadline it
/// shuts down with an idle time of exactly the timeout; and with a timeout
/// of zero the first turn shuts down at once.
pub proof fn lemma_idle_run(timeout_secs: u64, turns: Seq<IdleTurn>)
    requires
        turns.len() > 0,
        forall|k: int| 0 <= k < turns.len() ==> !((#[trigger] turns[k]).outcome is Tick),
        forall|k: int| 0 <= k < turns.len() - 1 ==> turn_action(timeout_secs, #[trigger] turns[k]) is HandleRequest,
    ensures
        forall|k: int| 0 <= k < turns.len() - 1 ==> {
            &&& (#[trigger] turns[k]).outcome is Received
            &&& turns[k].elapsed_nanos < timeout_nanos(timeout_secs)
        },
        turn_action(timeout_secs, turns.last()) is ShutDown
            ==> idle_at_end(timeout_secs, turns.last()) >= timeout_nanos(timeout_secs),
        (turns.last().outcome is NothingReceived && turns.last().elapsed_nanos < timeout_nanos(timeout_secs))
            ==> (turn_action(timeout_secs, turns.last()) is ShutDown
                && idle_at_end(timeout_secs, turns.last()) == timeout_nanos(timeout_secs)),
        timeout_secs == 0 ==> turn_action(timeout_secs, turns[0]) is ShutDown,
{
    assert(timeout_nanos(timeout_secs) <= 0xffff_ffff_ffff_ffff * 1_000_000_000) by (nonlinear_arith)
        requires timeout_secs <= 0xffff_ffff_ffff_ffff;
    assert(!(turns.last().outcome is Tick)) by {
        assert(turns.last() == turns[turns.len() - 1]);
    }
    assert forall|k: int| 0 <= k < turns.len() - 1 implies {
        &&& (#[trigger] turns[k]).outcome is Received
        &&& turns[k].elapsed_nanos < timeout_nanos(timeout_secs)
    } by {
        assert(turn_action(timeout_secs, turns[k]) is HandleRequest);
    }
}

/// What a reader of a growing archive does after a read.
pub enum ReadStep {
    /// Hand these bytes to the caller.
    Deliver(usize),
    /// Nothing new: the writer has finished, so compare position and length.
    CheckEnd,
    /// Nothing new yet: pause and read again.
    Retry,
}

/// The step after a read of `bytes_read` bytes.
pub fn after_read(bytes_read: usize, writer_done: bool) -> (s: ReadStep)
    ensures
        bytes_read > 0 ==> s == ReadStep::Deliver(bytes_read),
        bytes_read == 0 && writer_done ==> s is CheckEnd,
        bytes_read == 0 && !writer_done ==> s is Retry,
{
    if bytes_read > 0 {
        ReadStep::Deliver(bytes_read)
    } else if writer_done {
        ReadStep::CheckEnd
    } else {
        ReadStep::Retry
    }
}

/// Whether the reader has consumed the whole finished archive.
pub fn reached_end(position: u64, length: u64) -> (r: bool)
    ensures
        r == (position >= length),
{
    position >= length
}

} // verus!
