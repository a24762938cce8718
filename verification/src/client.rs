//! Subcommand clients: enqueue / status / pause / resume.
//!
//! Each opens a Unix socket, writes one line of JSON, reads one line back and
//! closes. A [`Call`] is what one of them asks and what answer it expects.
//! Connect retries with exponential backoff so a freshly socket-activated daemon
//! has a moment to come up.

use vstd::arithmetic::power2::{lemma2_to64, pow2};
use vstd::prelude::*;

use crate::daemon::{after_request, is_answer, Job, SocketKind, StateView};
use crate::protocol::{labelled, Request, Response, StatusReport};
use crate::text::{
    is_space, is_word, joined, law_a_word_is_the_only_word, law_split_undoes_join,
    law_white_space_has_no_words, law_white_space_separates_words, lemma_words_are_words,
    split_whitespace, texts, words,
};

verus! {

/// How long a client waits for the daemon to take or give a line, in seconds. A
/// wedged daemon (accepting but not replying) would otherwise hang the caller
/// forever.
pub const TIMEOUT_SECS: u64 = 10;

/// How often a client tries to connect.
pub const CONNECT_ATTEMPTS: u32 = 10;

/// The wait after the first failed attempt to connect, in milliseconds.
pub const FIRST_DELAY_MILLIS: u64 = 100;

/// The longest wait between two attempts to connect, in milliseconds.
pub const MAX_DELAY_MILLIS: u64 = 2000;

/// The answer that a client waits for.
#[derive(Clone, Copy, Debug, PartialEq, Eq, Structural)]
pub enum Expected {
    /// [`Response::Ack`].
    Ack,
    /// [`Response::Status`].
    Status,
}

/// A request, and the answer that it is to get.
#[derive(Debug)]
pub struct Call {
    pub request: Request,
    pub expected: Expected,
}

/// Why a call failed.
#[derive(Debug)]
pub enum CallError {
    /// The daemon could not be reached, or refused: in words.
    Failed(String),
    /// The daemon answered something else than expected.
    Unexpected(Response),
}

/// The outputs in the value of `OUT_PATHS`, if it is set.
pub open spec fn outputs_in(out_paths: Option<String>) -> Seq<Seq<char>> {
    match out_paths {
        Some(s) => words(s@),
        None => seq![],
    }
}

/// The .drv in the value of `DRV_PATH`, if it is set and not empty.
pub open spec fn drv_in(drv_path: Option<String>) -> Option<String> {
    match drv_path {
        Some(s) => if s@.len() > 0 {
            Some(s)
        } else {
            None
        },
        None => None,
    }
}

/// The call that submits a batch, given the values of `DRV_PATH` and `OUT_PATHS`,
/// where set. Without outputs there is none, and nothing to do: nix-daemon
/// sometimes fires the hook with nothing to forward, and an error would surface
/// as a build-time hook failure for what's effectively a no-op.
pub fn enqueue(drv_path: Option<String>, out_paths: Option<String>) -> (call: Option<Call>)
    ensures
        call is Some <==> outputs_in(out_paths).len() > 0,
        call matches Some(c) ==> {
            &&& c.expected is Ack
            &&& c.request matches Request::Enqueue { drv_path: drv, out_paths: outputs }
            &&& drv == drv_in(drv_path)
            &&& texts(outputs@) == outputs_in(out_paths)
        },
{
    let drv = match drv_path {
        Some(s) => if s.as_str().is_empty() {
            None
        } else {
            Some(s)
        },
        None => None,
    };
    let outputs = match out_paths {
        Some(s) => split_whitespace(s.as_str()),
        None => Vec::new(),
    };
    assert(texts(outputs@) =~= outputs_in(out_paths));
    if outputs.len() == 0 {
        return None;
    }
    Some(ack_call(Request::Enqueue { drv_path: drv, out_paths: outputs }))
}

/// The call that asks for a status report.
pub fn status() -> (call: Call)
    ensures
        call.request is Status,
        call.expected is Status,
{
    Call { request: Request::Status, expected: Expected::Status }
}

/// The call that parks all uploads.
pub fn pause() -> (call: Call)
    ensures
        call.request is Pause,
        call.expected is Ack,
{
    ack_call(Request::Pause)
}

/// The call that lifts a manual pause.
pub fn resume() -> (call: Call)
    ensures
        call.request is Resume,
        call.expected is Ack,
{
    ack_call(Request::Resume)
}

/// A call that is to be acked.
fn ack_call(request: Request) -> (call: Call)
    ensures
        call == (Call { request, expected: Expected::Ack }),
{
    Call { request, expected: Expected::Ack }
}

/// What `reply` comes to for a caller that waits for `expected`.
pub open spec fn is_outcome(
    expected: Expected,
    reply: Result<Response, String>,
    outcome: Result<Option<StatusReport>, CallError>,
) -> bool {
    match reply {
        Err(e) => outcome == Err::<Option<StatusReport>, _>(CallError::Failed(e)),
        Ok(Response::Error { message }) => outcome matches Err(CallError::Failed(e)) && e@
            == "daemon error"@ + ": "@ + message@,
        Ok(Response::Ack) => if expected is Ack {
            outcome == Ok::<_, CallError>(None::<StatusReport>)
        } else {
            outcome == Err::<Option<StatusReport>, _>(CallError::Unexpected(Response::Ack))
        },
        Ok(Response::Status(report)) => if expected is Status {
            outcome == Ok::<_, CallError>(Some(report))
        } else {
            outcome == Err::<Option<StatusReport>, _>(
                CallError::Unexpected(Response::Status(report)),
            )
        },
    }
}

/// The daemon's reply, with a refusal translated into an error so callers only
/// handle one error channel.
fn accepted(reply: Result<Response, String>) -> (response: Result<Response, String>)
    ensures
        match reply {
            Err(e) => response == Err::<Response, _>(e),
            Ok(Response::Error { message }) => response matches Err(e) && e@ == "daemon error"@
                + ": "@ + message@,
            Ok(other) => response == Ok::<_, String>(other),
        },
{
    match reply {
        Ok(Response::Error { message }) => Err(labelled("daemon error", message.as_str())),
        other => other,
    }
}

impl Call {
    /// Judges the daemon's reply, or what kept it from coming.
    pub fn finish(self, reply: Result<Response, String>) -> (outcome: Result<
        Option<StatusReport>,
        CallError,
    >)
        ensures
            is_outcome(self.expected, reply, outcome),
    {
        match accepted(reply) {
            Err(e) => Err(CallError::Failed(e)),
            Ok(Response::Ack) if self.expected == Expected::Ack => Ok(None),
            Ok(Response::Status(report)) if self.expected == Expected::Status => Ok(Some(report)),
            Ok(other) => Err(CallError::Unexpected(other)),
        }
    }
}

/// What a client that failed to connect does.
#[derive(Clone, Copy, Debug, PartialEq, Eq, Structural)]
pub enum Retry {
    /// Try again, once so many milliseconds have passed.
    After(u64),
    /// Give up.
    GiveUp,
}

/// The attempts to connect.
#[derive(Clone, Copy, Debug, PartialEq, Eq, Structural)]
pub struct Connecting {
    /// The attempt that is under way, from one on.
    pub attempt: u32,
    /// The wait after this attempt, in milliseconds.
    pub delay: u64,
}

impl Connecting {
    /// An attempt that may be made, and a wait within its bounds.
    pub open spec fn wf(self) -> bool {
        1 <= self.attempt <= CONNECT_ATTEMPTS && FIRST_DELAY_MILLIS <= self.delay
            <= MAX_DELAY_MILLIS
    }

    /// What follows the failure of this attempt, and the next attempt.
    pub open spec fn after_failure(self) -> (Connecting, Retry) {
        if self.attempt < CONNECT_ATTEMPTS {
            (
                Connecting {
                    attempt: (self.attempt + 1) as u32,
                    delay: if 2 * self.delay <= MAX_DELAY_MILLIS {
                        (2 * self.delay) as u64
                    } else {
                        MAX_DELAY_MILLIS
                    },
                },
                Retry::After(self.delay),
            )
        } else {
            (self, Retry::GiveUp)
        }
    }

    /// Before the first attempt.
    pub fn new() -> (connecting: Self)
        ensures
            connecting.wf(),
            connecting == (Connecting { attempt: 1, delay: FIRST_DELAY_MILLIS }),
    {
        Connecting { attempt: 1, delay: FIRST_DELAY_MILLIS }
    }

    /// Takes in that the attempt failed.
    pub fn failed(&mut self) -> (retry: Retry)
        requires
            old(self).wf(),
        ensures
            final(self).wf(),
            (*final(self), retry) == old(self).after_failure(),
    {
        if self.attempt < CONNECT_ATTEMPTS {
            let wait: u64 = self.delay;
            self.attempt = self.attempt + 1;
            self.delay = if 2 * wait <= MAX_DELAY_MILLIS {
                2 * wait
            } else {
                MAX_DELAY_MILLIS
            };
            Retry::After(wait)
        } else {
            Retry::GiveUp
        }
    }
}

/// The attempt that follows `n` failures.
pub open spec fn after_failures(n: nat) -> Connecting
    decreases n,
{
    if n == 0 {
        Connecting { attempt: 1, delay: FIRST_DELAY_MILLIS }
    } else {
        after_failures((n - 1) as nat).after_failure().0
    }
}

/// A client gives up after its tenth failure and not before. It waits 100 ms after
/// the first, twice as long after each further one, and never more than 2 s.
pub proof fn law_connecting_backs_off_and_gives_up(n: nat)
    requires
        n < CONNECT_ATTEMPTS,
    ensures
        after_failures(n).attempt == n + 1,
        after_failures(n).after_failure().1 == if n + 1 < CONNECT_ATTEMPTS {
            Retry::After(
                if n < 5 {
                    (FIRST_DELAY_MILLIS * pow2(n)) as u64
                } else {
                    MAX_DELAY_MILLIS
                },
            )
        } else {
            Retry::GiveUp
        },
        after_failures(n).delay == if n < 5 {
            FIRST_DELAY_MILLIS * pow2(n)
        } else {
            MAX_DELAY_MILLIS as int
        },
    decreases n,
{
    lemma2_to64();
    if n > 0 {
        law_connecting_backs_off_and_gives_up((n - 1) as nat);
    }
}

/// A pause, a resume and a status request succeed on every socket, and a status
/// request gets the daemon's report.
pub proof fn law_control_calls_succeed(
    state: StateView,
    request: Request,
    expected: Expected,
    kind: SocketKind,
    now: u64,
    response: Response,
    outcome: Result<Option<StatusReport>, CallError>,
)
    requires
        (request is Pause && expected is Ack) || (request is Resume && expected is Ack) || (request
            is Status && expected is Status),
        is_answer(state, request, kind, now, response),
        is_outcome(expected, Ok(response), outcome),
    ensures
        outcome == Ok::<_, CallError>(
            if request is Status {
                Some(state.status(now))
            } else {
                None
            },
        ),
{
}

/// What a client submits on the enqueue socket is acked, and the outputs in its
/// `OUT_PATHS` become the last job in the queue. The hook of that job finds the
/// same outputs in its own `OUT_PATHS`.
pub proof fn law_the_hook_gets_the_submitted_outputs(
    state: StateView,
    out_paths: Option<String>,
    drv: Option<String>,
    outputs: Vec<String>,
    now: u64,
    response: Response,
    outcome: Result<Option<StatusReport>, CallError>,
)
    requires
        texts(outputs@) == outputs_in(out_paths),
        outputs_in(out_paths).len() > 0,
        is_answer(
            state,
            Request::Enqueue { drv_path: drv, out_paths: outputs },
            SocketKind::Full,
            now,
            response,
        ),
        is_outcome(Expected::Ack, Ok(response), outcome),
    ensures
        outcome == Ok::<_, CallError>(None::<StatusReport>),
        after_request(
            state,
            Request::Enqueue { drv_path: drv, out_paths: outputs },
            SocketKind::Full,
        ).queue == state.queue.push(Job { drv_path: drv, out_paths: outputs }),
        words(joined(texts(outputs@))) == outputs_in(out_paths),
{
    assert(outputs@.len() == texts(outputs@).len());
    match out_paths {
        Some(s) => {
            lemma_words_are_words(s@);
        },
        None => {},
    }
    law_split_undoes_join(texts(outputs@));
}

/// Every output is submitted: the outputs for an `OUT_PATHS` that lists any number of
/// words, with a space between each and the next, are exactly these words in their
/// order.
pub proof fn law_every_listed_output_is_submitted(out_paths: String, outputs: Seq<Seq<char>>)
    requires
        out_paths@ == joined(outputs),
        forall|i: int| 0 <= i < outputs.len() ==> is_word(#[trigger] outputs[i]),
    ensures
        outputs_in(Some(out_paths)) == outputs,
        outputs_in(Some(out_paths)).len() == outputs.len(),
{
    law_split_undoes_join(outputs);
}

/// However `OUT_PATHS` separates its outputs, those before any white space and those
/// behind it are submitted, in this order; a text without white space is one output,
/// white space alone is none, and neither is a variable that is not set.
pub proof fn law_outputs_are_separated_by_white_space(
    out_paths: String,
    first: String,
    second: String,
    space: char,
)
    requires
        is_space(space),
        out_paths@ == first@ + seq![space] + second@,
    ensures
        outputs_in(Some(out_paths)) == outputs_in(Some(first)) + outputs_in(Some(second)),
        is_word(first@) ==> outputs_in(Some(first)) == seq![first@],
        (forall|i: int| 0 <= i < first@.len() ==> is_space(#[trigger] first@[i])) ==> outputs_in(
            Some(first),
        ).len() == 0,
        outputs_in(None).len() == 0,
{
    law_white_space_separates_words(first@, space, second@);
    if is_word(first@) {
        law_a_word_is_the_only_word(first@);
    }
    if forall|i: int| 0 <= i < first@.len() ==> is_space(#[trigger] first@[i]) {
        law_white_space_has_no_words(first@);
    }
}

/// The .drv that is submitted is the value of `DRV_PATH`, unless that is empty or not
/// set.
pub proof fn law_the_drv_is_submitted_unless_empty(drv_path: String)
    ensures
        drv_path@.len() > 0 ==> drv_in(Some(drv_path)) == Some(drv_path),
        drv_path@.len() == 0 ==> drv_in(Some(drv_path)) is None,
        drv_in(None) is None,
{
}

/// A call succeeds exactly when the answer that it waits for came, and brings the
/// report exactly when one was asked for. Otherwise it fails with what kept the reply
/// from coming, with the daemon's own words behind "daemon error: ", or with the answer
/// that was not expected.
pub proof fn law_a_call_succeeds_exactly_on_the_expected_answer(
    expected: Expected,
    reply: Result<Response, String>,
    outcome: Result<Option<StatusReport>, CallError>,
)
    requires
        is_outcome(expected, reply, outcome),
    ensures
        outcome is Ok <==> reply is Ok && ((expected is Ack && reply->Ok_0 is Ack) || (expected
            is Status && reply->Ok_0 is Status)),
        outcome matches Ok(None) ==> reply matches Ok(Response::Ack),
        outcome matches Ok(Some(report)) ==> reply == Ok::<_, String>(Response::Status(report)),
        reply matches Err(e) ==> outcome matches Err(CallError::Failed(f)) && f@ == e@,
        reply matches Ok(Response::Error { message }) ==> outcome matches Err(
            CallError::Failed(f),
        ) && f@ == "daemon error"@ + ": "@ + message@,
        outcome matches Err(CallError::Unexpected(other)) ==> reply == Ok::<_, String>(other)
            && !(other is Error),
        reply is Ok && !(reply->Ok_0 is Error) && outcome is Err ==> outcome->Err_0 is Unexpected,
{
}

/// A client waits for ten seconds at most for a line to be taken or given.
pub proof fn law_no_client_hangs()
    ensures
        TIMEOUT_SECS == 10,
{
}

} // verus!
