//! Wire protocol: one JSON object per line.
//!
//! ```text
//! client → server   {"type":"enqueue","drv_path":...,"out_paths":[...]}
//! server → client   {"type":"ack"}
//!
//! client → server   {"type":"status"}
//! server → client   {"type":"status","queue_depth":N,...}
//!
//! client → server   {"type":"pause"}   or   {"type":"resume"}
//! server → client   {"type":"ack"}
//! ```

use vstd::prelude::*;

use crate::text::{
    is_space, law_trimming_takes_off_the_white_space_at_the_end, trim_end, trimmed_end,
};

verus! {

/// Env var nix-daemon sets on post-build-hook invocations to the .drv path.
pub const DRV_PATH_ENV: &'static str = "DRV_PATH";

/// Env var nix-daemon sets on post-build-hook invocations to the new outputs.
pub const OUT_PATHS_ENV: &'static str = "OUT_PATHS";

/// What a client asks of the daemon.
#[derive(Clone, Debug)]
pub enum Request {
    /// Queue a batch of outputs for upload.
    Enqueue { drv_path: Option<String>, out_paths: Vec<String> },
    /// Report on the queue.
    Status,
    /// Park all uploads until a `Resume`.
    Pause,
    /// Lift a manual pause.
    Resume,
}

/// What the daemon answers.
#[derive(Clone, Debug)]
pub enum Response {
    /// The request was carried out.
    Ack,
    /// The request was refused.
    Error { message: String },
    /// The report that was asked for.
    Status(StatusReport),
}

/// A snapshot of the daemon.
#[derive(Clone, Debug)]
pub struct StatusReport {
    /// Batches that wait in the queue.
    pub queue_depth: usize,
    /// Hooks that run now.
    pub in_flight: usize,
    /// Batches whose hook succeeded.
    pub processed_total: u64,
    /// Batches that were dropped after their last attempt.
    pub failed_total: u64,
    /// Whole seconds since the daemon started.
    pub uptime_seconds: u64,
    /// Rolling average of completed-batch wall-clock durations (~last 30 min,
    /// up to 200 entries). `None` until at least one batch has completed.
    pub avg_batch_seconds: Option<BatchAverage>,
    /// The batch that a worker is currently running, if any; where several run, the
    /// one whose hook started last. While none runs, the batch that a worker is
    /// sizing.
    pub current_batch: Option<CurrentBatch>,
    /// The most recent successful batch.
    pub last_completed: Option<RecentBatch>,
    /// `None` when --pause-on-metered is off. Otherwise reports NetworkManager's
    /// availability and the live metered flag.
    pub network: Option<NetworkStatus>,
    /// Whether a manual pause is in effect.
    pub paused: bool,
}

/// The mean of some durations, exact: their sum over their number.
#[derive(Clone, Copy, Debug, PartialEq, Eq, Structural)]
pub struct BatchAverage {
    /// The sum of the durations, in nanoseconds.
    pub total_nanos: u128,
    /// How many durations there are.
    pub batches: usize,
}

/// A batch under way: its hook runs, or its closure is being sized.
#[derive(Clone, Debug)]
pub struct CurrentBatch {
    /// .drv that produced this batch, if known.
    pub drv_path: Option<String>,
    /// Number of OUT_PATHS in the batch.
    pub paths_count: usize,
    /// Total NAR size of the unique closure of all OUT_PATHS, in bytes. Upper
    /// bound on what `nix copy` will upload: paths already in the cache are
    /// skipped, so the actual upload may be smaller. `None` if the closure
    /// query (`nix path-info --recursive`) hasn't finished yet or failed.
    pub closure_bytes: Option<u64>,
    /// Whole seconds since the batch's hook started, or else its sizing.
    pub started_seconds_ago: u64,
}

/// A batch that completed.
#[derive(Clone, Debug)]
pub struct RecentBatch {
    /// .drv that produced this batch, if known.
    pub drv_path: Option<String>,
    /// Number of OUT_PATHS in the batch.
    pub paths_count: usize,
    /// See [`CurrentBatch::closure_bytes`]: the closure size, not the bytes
    /// pushed.
    pub closure_bytes: Option<u64>,
    /// Whole seconds that the batch took.
    pub duration_seconds: u64,
    /// Whole seconds since the batch completed.
    pub completed_seconds_ago: u64,
}

/// What the daemon knows of the network.
#[derive(Clone, Copy, Debug, PartialEq, Eq, Structural)]
pub struct NetworkStatus {
    /// True when NetworkManager is reachable on the system bus.
    pub nm_available: bool,
    /// True when NetworkManager reports a metered connection. While true,
    /// workers that pull a job park until the connection becomes unmetered.
    pub metered: bool,
}

/// `detail` behind the name of the step that it concerns.
pub fn labelled(step: &str, detail: &str) -> (message: String)
    ensures
        message@ == step@ + ": "@ + detail@,
{
    let mut message = step.to_owned();
    message.append(": ");
    message.append(detail);
    message
}

/// The text of a message in the line that carries it; none in the empty line that
/// stands for the end of the stream.
pub open spec fn message_in(line: Seq<char>) -> Option<Seq<char>> {
    if line.len() == 0 {
        None
    } else {
        Some(trimmed_end(line))
    }
}

/// The line that carries a message.
pub open spec fn framed(text: Seq<char>) -> Seq<char> {
    text.push('\n')
}

/// The JSON text of one newline-delimited message, given what reading a line
/// gave: the line with its end, nothing at the end of the stream, or what went
/// wrong.
pub fn read_line(read: Result<String, String>) -> (json: Result<String, String>)
    ensures
        match read {
            Err(e) => json matches Err(message) && message@ == "read"@ + ": "@ + e@,
            Ok(line) => match message_in(line@) {
                None => json matches Err(message) && message@ == "empty request"@,
                Some(t) => json matches Ok(text) && text@ == t,
            },
        },
{
    match read {
        Err(e) => Err(labelled("read", e.as_str())),
        Ok(line) => if line.as_str().is_empty() {
            Err("empty request".to_owned())
        } else {
            Ok(trim_end(line.as_str()))
        },
    }
}

/// One newline-delimited message, given its JSON text or why it could not be
/// encoded.
pub fn write_line(json: Result<String, String>) -> (line: Result<String, String>)
    ensures
        match json {
            Err(e) => line matches Err(message) && message@ == "encode"@ + ": "@ + e@,
            Ok(text) => line matches Ok(l) && l@ == framed(text@),
        },
{
    match json {
        Err(e) => Err(labelled("encode", e.as_str())),
        Ok(text) => {
            proof {
                reveal_strlit("\n");
            }
            let mut line = text;
            let ghost before = line@;
            line.append("\n");
            assert(before + "\n"@ =~= framed(before));
            Ok(line)
        },
    }
}

/// Reading a written line gives its text back, but for white space at the end of
/// the text: all of it, where the text ends in anything else.
pub proof fn law_a_line_reads_back(text: Seq<char>)
    ensures
        message_in(framed(text)) == Some(trimmed_end(text)),
        text.len() > 0 && !is_space(text.last()) ==> message_in(framed(text)) == Some(text),
{
    assert(framed(text).drop_last() =~= text);
    reveal_with_fuel(trimmed_end, 2);
}

/// A text without a line break is written as exactly one line.
pub proof fn law_a_message_is_one_line(text: Seq<char>)
    requires
        !text.contains('\n'),
    ensures
        forall|i: int|
            0 <= i < framed(text).len() ==> (#[trigger] framed(text)[i] == '\n' <==> i
                == text.len()),
{
    assert forall|i: int| 0 <= i < framed(text).len() implies (#[trigger] framed(text)[i] == '\n'
        <==> i == text.len()) by {
        if i < text.len() {
            assert(text.contains(text[i]));
        }
    }
}

/// The first line of `unread`, with the line break that ends it: what one read
/// takes off a stream. It is empty at the end of the stream and only there.
pub open spec fn first_line(unread: Seq<char>) -> Seq<char>
    decreases unread.len(),
{
    if unread.len() == 0 {
        seq![]
    } else if unread[0] == '\n' {
        seq!['\n']
    } else {
        seq![unread[0]] + first_line(unread.skip(1))
    }
}

/// What one read leaves of `unread`.
pub open spec fn behind_first_line(unread: Seq<char>) -> Seq<char> {
    unread.skip(first_line(unread).len() as int)
}

/// What `n` reads leave of `unread`.
pub open spec fn behind_lines(unread: Seq<char>, n: nat) -> Seq<char>
    decreases n,
{
    if n == 0 {
        unread
    } else {
        behind_lines(behind_first_line(unread), (n - 1) as nat)
    }
}

/// `messages` as they are written, one after the other.
pub open spec fn written(messages: Seq<Seq<char>>) -> Seq<char>
    decreases messages.len(),
{
    if messages.len() == 0 {
        seq![]
    } else {
        framed(messages[0]) + written(messages.skip(1))
    }
}

/// Whether `text` can be a message: without a line break, and not ending in white
/// space. So is every JSON object that is written on one line.
pub open spec fn is_message(text: Seq<char>) -> bool {
    &&& text.len() > 0
    &&& !is_space(text.last())
    &&& !text.contains('\n')
}

/// One read takes exactly one line off the stream and leaves the rest.
pub proof fn law_a_read_takes_one_line(text: Seq<char>, rest: Seq<char>)
    requires
        !text.contains('\n'),
    ensures
        first_line(framed(text) + rest) == framed(text),
        behind_first_line(framed(text) + rest) == rest,
    decreases text.len(),
{
    let unread = framed(text) + rest;
    if text.len() == 0 {
        assert(framed(text) =~= seq!['\n']);
    } else {
        let tail = text.skip(1);
        assert(text.contains(text[0]));
        assert(!tail.contains('\n')) by {
            if tail.contains('\n') {
                let i = choose|i: int| 0 <= i < tail.len() && tail[i] == '\n';
                assert(text[i + 1] == '\n');
            }
        }
        law_a_read_takes_one_line(tail, rest);
        assert(unread.skip(1) =~= framed(tail) + rest);
        assert(seq![unread[0]] + framed(tail) =~= framed(text));
    }
    assert(unread.skip(framed(text).len() as int) =~= rest);
}

/// Two messages written to one stream are read back one after the other, and then
/// comes the end of the stream.
pub proof fn law_two_messages_read_back(first: Seq<char>, second: Seq<char>)
    requires
        is_message(first),
        is_message(second),
    ensures
        ({
            let unread = framed(first) + framed(second);
            &&& message_in(first_line(unread)) == Some(first)
            &&& message_in(first_line(behind_first_line(unread))) == Some(second)
            &&& message_in(first_line(behind_first_line(behind_first_line(unread)))) is None
        }),
{
    law_a_read_takes_one_line(first, framed(second));
    assert(framed(second) + Seq::empty() =~= framed(second));
    law_a_read_takes_one_line(second, Seq::empty());
    law_a_line_reads_back(first);
    law_a_line_reads_back(second);
}

/// However many messages are written to one stream, the reads give them back in
/// turn, each the one that was written next, and then the end of the stream.
pub proof fn law_messages_read_back_in_turn(messages: Seq<Seq<char>>, n: nat)
    requires
        forall|i: int| 0 <= i < messages.len() ==> is_message(#[trigger] messages[i]),
        n <= messages.len(),
    ensures
        message_in(first_line(behind_lines(written(messages), n))) == if n < messages.len() {
            Some(messages[n as int])
        } else {
            None
        },
    decreases n,
{
    if messages.len() > 0 {
        let tail = messages.skip(1);
        assert(is_message(messages[0]));
        law_a_read_takes_one_line(messages[0], written(tail));
        law_a_line_reads_back(messages[0]);
        if n > 0 {
            assert forall|i: int| 0 <= i < tail.len() implies is_message(#[trigger] tail[i]) by {
                assert(tail[i] == messages[i + 1]);
            }
            law_messages_read_back_in_turn(tail, (n - 1) as nat);
        }
    }
}

/// A read finds no message only at the end of the stream.
pub proof fn law_only_the_end_is_an_empty_request(unread: Seq<char>)
    ensures
        message_in(first_line(unread)) is None <==> unread.len() == 0,
{
}

/// A message is written as its text and a line break behind it, and nothing else.
pub proof fn law_a_message_is_its_text_and_a_line_break(text: Seq<char>)
    ensures
        framed(text).len() == text.len() + 1,
        framed(text).take(text.len() as int) == text,
        framed(text).last() == '\n',
{
    assert(framed(text).take(text.len() as int) =~= text);
}

/// The message in a line is the line without the white space at its end; only the end
/// of the stream holds none.
pub proof fn law_a_message_is_the_line_without_its_end(line: Seq<char>)
    ensures
        line.len() == 0 <==> message_in(line) is None,
        message_in(line) matches Some(text) ==> {
            &&& text.len() <= line.len()
            &&& text == line.take(text.len() as int)
            &&& text.len() > 0 ==> !is_space(text.last())
            &&& forall|i: int| text.len() <= i < line.len() ==> is_space(#[trigger] line[i])
        },
{
    law_trimming_takes_off_the_white_space_at_the_end(line);
}

} // verus!
