//! Consuming a streamed response: bytes arrive in chunks, lines are taken off the buffer as they
//! become complete, and each text delta is handed out to be forwarded.

use crate::ai::{
    handle_sse_line, law_data_lines, law_smallest_frames_carry_any_text, line_frame, smallest_frame,
    AiEvent, AiEventView, FrameView, LineOutcome, Provider, MAX_SSE_BUFFER,
};
use crate::error::{error_text, AppError, AppErrorView, AppResult};
use crate::json::json_document;
use crate::text::{concatenated, is_white_space, lemma_without_start_bounds, trimmed, Class};
use vstd::prelude::*;
use vstd::utf8::{decode_utf8, valid_utf8};

verus! {

/// The text that `String::from_utf8_lossy` reads from bytes.
pub uninterp spec fn lossy_text(bytes: Seq<u8>) -> Seq<char>;

/// `String::from_utf8_lossy` decodes UTF-8. What it puts in the place of a malformed sequence
/// depends on the bytes alone and is named by [`lossy_text`]; well-formed bytes are decoded
/// exactly.
#[verifier::external_body]
fn decode_lossy(bytes: &[u8]) -> (r: String)
    ensures
        r@ == lossy_text(bytes@),
        valid_utf8(bytes@) ==> r@ == decode_utf8(bytes@),
{
    String::from_utf8_lossy(bytes).into_owned()
}

/// The length of the first line of `b` with its newline, if `b` holds a newline.
pub open spec fn line_end(b: Seq<u8>) -> Option<int>
    decreases b.len(),
{
    if b.len() == 0 {
        None
    } else if b[0] == 10 {
        Some(1)
    } else {
        match line_end(b.drop_first()) {
            Some(n) => Some(n + 1),
            None => None,
        }
    }
}

/// What a line amounts to, given the bytes before its newline.
pub open spec fn bytes_frame(line: Seq<u8>, p: Provider) -> FrameView {
    if line.len() == 0 {
        FrameView::Ignored
    } else {
        line_frame(lossy_text(line), p)
    }
}

/// The next thing that the lines of `b` amount to, and the bytes behind them: lines that amount
/// to nothing are passed over.
pub open spec fn next_frame(b: Seq<u8>, p: Provider) -> (FrameView, Seq<u8>)
    decreases b.len(),
    via next_frame_decreases
{
    match line_end(b) {
        None => (FrameView::Ignored, b),
        Some(n) => match bytes_frame(b.take(n - 1), p) {
            FrameView::Ignored => next_frame(b.skip(n), p),
            frame => (frame, b.skip(n)),
        },
    }
}

#[via_fn]
proof fn next_frame_decreases(b: Seq<u8>, p: Provider) {
    lemma_line_end(b);
}

/// Where the first line ends.
proof fn lemma_line_end(b: Seq<u8>)
    ensures
        match line_end(b) {
            Some(n) => {
                &&& 0 < n <= b.len()
                &&& b[n - 1] == 10
                &&& forall|k: int| 0 <= k < n - 1 ==> #[trigger] b[k] != 10
            },
            None => forall|k: int| 0 <= k < b.len() ==> #[trigger] b[k] != 10,
        },
    decreases b.len(),
{
    if b.len() > 0 && b[0] != 10 {
        let t = b.drop_first();
        lemma_line_end(t);
        assert(forall|k: int| 0 < k < b.len() ==> #[trigger] b[k] == t[k - 1]);
    }
}

/// The first newline decides where the line ends.
proof fn lemma_line_end_at(b: Seq<u8>, n: int)
    requires
        0 < n <= b.len(),
        b[n - 1] == 10,
        forall|k: int| 0 <= k < n - 1 ==> #[trigger] b[k] != 10,
    ensures
        line_end(b) == Some(n),
{
    lemma_line_end(b);
}

/// The texts of several deltas, one after the other.
pub open spec fn all_text(deltas: Seq<Seq<char>>) -> Seq<char>
    decreases deltas.len(),
{
    if deltas.len() == 0 {
        seq![]
    } else {
        all_text(deltas.drop_last()) + deltas.last()
    }
}

/// Everything that the complete lines of a run of bytes amount to: the deltas up to the first
/// error, that error, and the bytes behind the last line handled.
pub struct StreamView {
    pub deltas: Seq<Seq<char>>,
    pub failure: Option<Seq<char>>,
    pub rest: Seq<u8>,
}

/// What the complete lines of `b` amount to.
pub open spec fn stream_of(b: Seq<u8>, p: Provider) -> StreamView
    decreases b.len(),
    via stream_of_decreases
{
    match line_end(b) {
        None => StreamView { deltas: seq![], failure: None, rest: b },
        Some(n) => {
            let tail = stream_of(b.skip(n), p);
            match bytes_frame(b.take(n - 1), p) {
                FrameView::Ignored => tail,
                FrameView::Delta(t) => StreamView {
                    deltas: seq![t] + tail.deltas,
                    failure: tail.failure,
                    rest: tail.rest,
                },
                FrameView::Failed(m) => StreamView {
                    deltas: seq![],
                    failure: Some(m),
                    rest: b.skip(n),
                },
            }
        },
    }
}

#[via_fn]
proof fn stream_of_decreases(b: Seq<u8>, p: Provider) {
    lemma_line_end(b);
}

/// What a whole response amounts to: its complete lines, and then the bytes behind the last
/// newline as one more line.
pub open spec fn whole(b: Seq<u8>, p: Provider) -> StreamView {
    let s = stream_of(b, p);
    if s.failure is Some || s.rest.len() == 0 {
        s
    } else {
        match bytes_frame(s.rest, p) {
            FrameView::Ignored => s,
            FrameView::Delta(t) => StreamView {
                deltas: s.deltas.push(t),
                failure: None,
                rest: seq![],
            },
            FrameView::Failed(m) => StreamView {
                deltas: s.deltas,
                failure: Some(m),
                rest: seq![],
            },
        }
    }
}

// ---------------------------------------------------------------- the machine

/// Where a stream stands.
#[derive(Debug, Clone, Copy, PartialEq, Eq, Structural)]
pub enum Phase {
    /// More bytes are wanted.
    Reading,
    /// An event is on its way to the frontend.
    Sending,
    /// The response has ended and its last event is on its way to the frontend.
    Closing,
    /// The result has been given.
    Over,
}

/// What happened outside.
pub enum StreamInput {
    /// Bytes arrived.
    Chunk(Vec<u8>),
    /// The response ended.
    End,
    /// The frontend took the event.
    Delivered,
    /// The frontend has dropped the channel.
    Refused,
}

/// What to do next.
pub enum StreamAction {
    /// Read on.
    Read,
    /// Send this event to the frontend.
    Send(AiEvent),
    /// Stop: this is the result.
    Stop(AppResult<ChatOutcome>),
}

/// The result of a streamed chat completion.
pub struct ChatOutcome {
    /// The accumulated response text.
    pub text: String,
    /// Whether the stream ran to completion. It did not when the frontend dropped the channel: the
    /// text is then a truncated fragment that must not be persisted as a finished result.
    pub completed: bool,
}

/// The model of a [`StreamAction`].
pub enum ActionView {
    Read,
    Send(AiEventView),
    Finish { text: Seq<char>, completed: bool },
    Fail(AppErrorView),
}

impl View for StreamAction {
    type V = ActionView;

    open spec fn view(&self) -> ActionView {
        match self {
            StreamAction::Read => ActionView::Read,
            StreamAction::Send(e) => ActionView::Send(e@),
            StreamAction::Stop(Ok(o)) => ActionView::Finish { text: o.text@, completed: o.completed },
            StreamAction::Stop(Err(e)) => ActionView::Fail(e@),
        }
    }
}

/// A response being consumed.
pub struct SseStream {
    pub provider: Provider,
    pub phase: Phase,
    /// The bytes that wait for their line to be handled.
    pub buf: Vec<u8>,
    /// The response text so far.
    pub full: String,
    /// The deltas handed out so far.
    pub sent: Ghost<Seq<Seq<char>>>,
    /// The bytes that have arrived so far.
    pub seen: Ghost<Seq<u8>>,
}

/// What a step leads to: the next action, the phase, the buffer and the text.
pub struct Step {
    pub action: ActionView,
    pub phase: Phase,
    pub buf: Seq<u8>,
    pub full: Seq<char>,
}

/// Handling the complete lines of `buf` up to the next event.
pub open spec fn advanced(p: Provider, buf: Seq<u8>, full: Seq<char>) -> Step {
    let (frame, rest) = next_frame(buf, p);
    match frame {
        FrameView::Ignored => Step {
            action: ActionView::Read,
            phase: Phase::Reading,
            buf: rest,
            full,
        },
        FrameView::Delta(t) => Step {
            action: ActionView::Send(AiEventView::Delta(t)),
            phase: Phase::Sending,
            buf: rest,
            full: full + t,
        },
        FrameView::Failed(m) => Step {
            action: ActionView::Fail(AppErrorView::Other(m)),
            phase: Phase::Over,
            buf: rest,
            full,
        },
    }
}

/// Giving the result.
pub open spec fn finished(buf: Seq<u8>, full: Seq<char>, completed: bool) -> Step {
    Step {
        action: ActionView::Finish { text: full, completed },
        phase: Phase::Over,
        buf,
        full,
    }
}

/// Handling what is left when the response has ended.
pub open spec fn ended(p: Provider, buf: Seq<u8>, full: Seq<char>) -> Step {
    if buf.len() == 0 {
        finished(seq![], full, true)
    } else {
        match bytes_frame(buf, p) {
            FrameView::Ignored => finished(seq![], full, true),
            FrameView::Delta(t) => Step {
                action: ActionView::Send(AiEventView::Delta(t)),
                phase: Phase::Closing,
                buf: seq![],
                full: full + t,
            },
            FrameView::Failed(m) => Step {
                action: ActionView::Fail(AppErrorView::Other(m)),
                phase: Phase::Over,
                buf: seq![],
                full,
            },
        }
    }
}

/// The step that an input leads to.
pub open spec fn step_of(
    p: Provider,
    phase: Phase,
    buf: Seq<u8>,
    full: Seq<char>,
    input: StreamInput,
) -> Step {
    match input {
        StreamInput::Chunk(c) => if buf.len() + c@.len() > MAX_SSE_BUFFER {
            Step {
                action: ActionView::Fail(
                    AppErrorView::Other("AI stream error: response is not server-sent events"@),
                ),
                phase: Phase::Over,
                buf: buf + c@,
                full,
            }
        } else {
            advanced(p, buf + c@, full)
        },
        StreamInput::End => ended(p, buf, full),
        StreamInput::Delivered => if phase == Phase::Closing {
            finished(buf, full, true)
        } else {
            advanced(p, buf, full)
        },
        StreamInput::Refused => finished(buf, full, false),
    }
}

/// The bytes that an input brings.
pub open spec fn bytes_in(input: StreamInput) -> Seq<u8> {
    match input {
        StreamInput::Chunk(c) => c@,
        _ => seq![],
    }
}

/// The step from `before` to `after` that an input leads to.
pub open spec fn steps(
    before: SseStream,
    input: StreamInput,
    after: SseStream,
    action: ActionView,
) -> bool {
    let next = step_of(before.provider, before.phase, before.buf@, before.full@, input);
    let all = whole(after.seen@, after.provider);
    &&& after.valid()
    &&& after.provider == before.provider
    &&& after.seen@ == before.seen@ + bytes_in(input)
    &&& action == next.action
    &&& after.phase == next.phase
    &&& after.buf@ == next.buf
    &&& after.full@ == next.full
    &&& after.sent@ == match action {
        ActionView::Send(AiEventView::Delta(t)) => before.sent@.push(t),
        _ => before.sent@,
    }
    // A result that counts as complete is the whole response, and all of it was handed out.
    &&& action is Finish && action->completed ==> {
        &&& all.failure is None
        &&& action->text == all_text(all.deltas)
        &&& after.sent@ == all.deltas
    }
    // A failure is the one that the response reports, and everything before it was handed out,
    // unless the buffer outgrew its cap.
    &&& action is Fail && before.buf@.len() + bytes_in(input).len() <= MAX_SSE_BUFFER ==> {
        &&& all.failure == Some(error_text(action->Fail_0))
        &&& after.sent@ == all.deltas
        &&& !(input is End) ==> stream_of(after.seen@, after.provider).failure == all.failure
    }
}

impl SseStream {
    /// The text is what was handed out and nothing else, the buffer keeps to its cap, and nothing
    /// that arrived is lost or handled twice: what was handed out, followed by what the buffer still
    /// amounts to, is what all the bytes so far amount to.
    pub open spec fn valid(self) -> bool {
        let all = stream_of(self.seen@, self.provider);
        let left = stream_of(self.buf@, self.provider);
        &&& self.full@ == all_text(self.sent@)
        &&& self.phase != Phase::Over ==> self.buf@.len() <= MAX_SSE_BUFFER
        &&& match self.phase {
            Phase::Reading => {
                &&& line_end(self.buf@) is None
                &&& all == (StreamView { deltas: self.sent@, failure: None, rest: self.buf@ })
            },
            Phase::Sending => all == (StreamView {
                deltas: self.sent@ + left.deltas,
                failure: left.failure,
                rest: left.rest,
            }),
            Phase::Closing => {
                &&& whole(self.seen@, self.provider).deltas == self.sent@
                &&& whole(self.seen@, self.provider).failure is None
            },
            Phase::Over => true,
        }
    }

    /// The stream waits for this input: bytes or the end while it reads, the fate of an event
    /// while one is on its way.
    pub open spec fn awaits(self, input: StreamInput) -> bool {
        match input {
            StreamInput::Chunk(_) => self.phase == Phase::Reading,
            StreamInput::End => self.phase == Phase::Reading,
            StreamInput::Delivered => self.phase == Phase::Sending || self.phase == Phase::Closing,
            StreamInput::Refused => self.phase == Phase::Sending || self.phase == Phase::Closing,
        }
    }

    /// A stream of which nothing has arrived.
    pub fn new(provider: Provider) -> (s: SseStream)
        ensures
            s.valid(),
            s.provider == provider,
            s.phase == Phase::Reading,
            s.buf@.len() == 0,
            s.full@.len() == 0,
            s.sent@.len() == 0,
            s.seen@.len() == 0,
    {
        let s = SseStream {
            provider,
            phase: Phase::Reading,
            buf: Vec::new(),
            full: String::new(),
            sent: Ghost(Seq::empty()),
            seen: Ghost(Seq::empty()),
        };
        assert(s.buf@ =~= s.seen@);
        s
    }

    /// Takes the next step. Chunks are gathered until a line is complete, each text delta is
    /// handed out to be sent, and reading goes on once it was taken. A provider error ends the
    /// stream, and so does a buffer beyond [`MAX_SSE_BUFFER`], which is no server-sent-events
    /// stream. An endpoint may close the connection right behind its last `data:` line with no
    /// newline; that line is handled like the others. When the frontend has dropped the channel,
    /// the rest of the response is not waited for.
    pub fn step(&mut self, input: StreamInput) -> (action: StreamAction)
        requires
            old(self).valid(),
            old(self).awaits(input),
        ensures
            steps(*old(self), input, *final(self), action@),
    {
        match input {
            StreamInput::Chunk(chunk) => {
                self.buf.extend_from_slice(chunk.as_slice());
                assert(self.buf@ =~= old(self).buf@ + chunk@);
                self.seen = Ghost(self.seen@ + chunk@);
                if self.buf.len() > MAX_SSE_BUFFER {
                    self.phase = Phase::Over;
                    return StreamAction::Stop(
                        Err(
                            AppError::other(
                                "AI stream error: response is not server-sent events".to_string(),
                            ),
                        ),
                    );
                }
                proof {
                    lemma_stream_extends(old(self).seen@, chunk@, self.provider);
                }
                self.phase = Phase::Sending;
                self.advance()
            },
            StreamInput::End => {
                assert(old(self).seen@ + bytes_in(input) =~= old(self).seen@);
                self.end()
            },
            StreamInput::Delivered => {
                assert(old(self).seen@ + bytes_in(input) =~= old(self).seen@);
                if self.phase == Phase::Closing {
                    self.phase = Phase::Over;
                    StreamAction::Stop(Ok(ChatOutcome { text: self.full.clone(), completed: true }))
                } else {
                    self.advance()
                }
            },
            StreamInput::Refused => {
                assert(old(self).seen@ + bytes_in(input) =~= old(self).seen@);
                self.phase = Phase::Over;
                StreamAction::Stop(Ok(ChatOutcome { text: self.full.clone(), completed: false }))
            },
        }
    }

    /// The number of bytes up to and with the first newline of the buffer.
    fn first_line(&self) -> (r: Option<usize>)
        ensures
            match r {
                Some(n) => line_end(self.buf@) == Some(n as int),
                None => line_end(self.buf@) is None,
            },
            r matches Some(n) ==> 0 < n <= self.buf@.len(),
    {
        let all: usize = self.buf.len();
        let mut i: usize = 0;
        while i < all
            invariant
                all == self.buf@.len(),
                i <= all,
                forall|k: int| 0 <= k < i ==> #[trigger] self.buf@[k] != 10,
            decreases all - i,
        {
            if self.buf[i] == 10 {
                proof {
                    lemma_line_end_at(self.buf@, i + 1);
                }
                return Some(i + 1);
            }
            i = i + 1;
        }
        proof {
            lemma_line_end(self.buf@);
        }
        None
    }

    /// Handles the complete lines of the buffer up to the next event to send.
    fn advance(&mut self) -> (action: StreamAction)
        requires
            old(self).valid(),
            old(self).phase == Phase::Sending,
        ensures
            final(self).valid(),
            final(self).provider == old(self).provider,
            final(self).seen@ == old(self).seen@,
            ({
                let next = advanced(old(self).provider, old(self).buf@, old(self).full@);
                &&& action@ == next.action
                &&& final(self).phase == next.phase
                &&& final(self).buf@ == next.buf
                &&& final(self).full@ == next.full
            }),
            match action@ {
                ActionView::Send(AiEventView::Delta(t)) => final(self).sent@ == old(self).sent@.push(
                    t,
                ),
                _ => final(self).sent@ == old(self).sent@,
            },
            action@ is Fail ==> {
                &&& stream_of(final(self).seen@, final(self).provider).failure == Some(
                    error_text(action@->Fail_0),
                )
                &&& stream_of(final(self).seen@, final(self).provider).deltas == final(self).sent@
            },
    {
        proof {
            law_events_in_turn(self.buf@, self.provider);
            lemma_rest_has_no_line(self.buf@, self.provider);
        }
        loop
            invariant
                self.provider == old(self).provider,
                self.full@ == old(self).full@,
                self.sent@ == old(self).sent@,
                self.seen@ == old(self).seen@,
                self.buf@.len() <= MAX_SSE_BUFFER,
                old(self).valid(),
                old(self).phase == Phase::Sending,
                next_frame(self.buf@, self.provider) == next_frame(
                    old(self).buf@,
                    old(self).provider,
                ),
            ensures
                self.provider == old(self).provider,
                self.full@ == old(self).full@,
                self.sent@ == old(self).sent@,
                self.seen@ == old(self).seen@,
                self.buf@.len() <= MAX_SSE_BUFFER,
                next_frame(old(self).buf@, self.provider) == (FrameView::Ignored, self.buf@),
                line_end(self.buf@) is None,
            decreases self.buf@.len(),
        {
            let n: usize = match self.first_line() {
                Some(n) => n,
                None => {
                    break;
                },
            };
            let ghost before = self.buf@;
            let mut raw: Vec<u8> = self.buf.split_off(n);
            std::mem::swap(&mut raw, &mut self.buf);
            raw.truncate(n - 1);
            proof {
                assert(raw@ =~= before.take(n - 1));
                assert(self.buf@ =~= before.skip(n as int));
            }
            if raw.len() == 0 {
                continue;
            }
            let line = decode_lossy(raw.as_slice());
            match handle_sse_line(line.as_str(), self.provider, &mut self.full) {
                Ok(LineOutcome::Continue) => {},
                Ok(LineOutcome::Send(event)) => {
                    let ghost handed = self.sent@;
                    self.sent = Ghost(handed.push(event@->Delta_0));
                    self.phase = Phase::Sending;
                    proof {
                        law_events_in_turn(old(self).buf@, old(self).provider);
                        let t = event@->Delta_0;
                        let later = stream_of(self.buf@, self.provider).deltas;
                        assert(self.sent@.drop_last() =~= handed);
                        assert(handed + (seq![t] + later) =~= handed.push(t) + later);
                    }
                    return StreamAction::Send(event);
                },
                Err(e) => {
                    self.phase = Phase::Over;
                    proof {
                        law_events_in_turn(old(self).buf@, old(self).provider);
                        assert(self.sent@ + Seq::<Seq<char>>::empty() =~= self.sent@);
                    }
                    return StreamAction::Stop(Err(e));
                },
            }
        }
        self.phase = Phase::Reading;
        proof {
            law_events_in_turn(old(self).buf@, old(self).provider);
            assert(self.sent@ + Seq::<Seq<char>>::empty() =~= self.sent@);
        }
        StreamAction::Read
    }

    /// Handles what is left when the response has ended.
    fn end(&mut self) -> (action: StreamAction)
        requires
            old(self).valid(),
            old(self).phase == Phase::Reading,
        ensures
            final(self).valid(),
            final(self).provider == old(self).provider,
            final(self).seen@ == old(self).seen@,
            ({
                let next = ended(old(self).provider, old(self).buf@, old(self).full@);
                &&& action@ == next.action
                &&& final(self).phase == next.phase
                &&& final(self).buf@ == next.buf
                &&& final(self).full@ == next.full
            }),
            match action@ {
                ActionView::Send(AiEventView::Delta(t)) => final(self).sent@ == old(self).sent@.push(
                    t,
                ),
                _ => final(self).sent@ == old(self).sent@,
            },
            action@ is Finish && action@->completed ==> {
                &&& whole(final(self).seen@, final(self).provider).failure is None
                &&& action@->text == all_text(
                    whole(final(self).seen@, final(self).provider).deltas,
                )
                &&& final(self).sent@ == whole(final(self).seen@, final(self).provider).deltas
            },
            action@ is Fail ==> {
                &&& whole(final(self).seen@, final(self).provider).failure == Some(
                    error_text(action@->Fail_0),
                )
                &&& final(self).sent@ == whole(final(self).seen@, final(self).provider).deltas
            },
    {
        if self.buf.len() == 0 {
            assert(self.buf@ =~= seq![]);
            self.phase = Phase::Over;
            return StreamAction::Stop(Ok(ChatOutcome { text: self.full.clone(), completed: true }));
        }
        let line = decode_lossy(self.buf.as_slice());
        self.buf.clear();
        assert(self.buf@ =~= seq![]);
        match handle_sse_line(line.as_str(), self.provider, &mut self.full) {
            Ok(LineOutcome::Continue) => {
                self.phase = Phase::Over;
                StreamAction::Stop(Ok(ChatOutcome { text: self.full.clone(), completed: true }))
            },
            Ok(LineOutcome::Send(event)) => {
                let ghost handed = self.sent@;
                self.sent = Ghost(handed.push(event@->Delta_0));
                self.phase = Phase::Closing;
                assert(self.sent@.drop_last() =~= handed);
                StreamAction::Send(event)
            },
            Err(e) => {
                self.phase = Phase::Over;
                StreamAction::Stop(Err(e))
            },
        }
    }
}

/// The event that closes a stream with this error, or without one.
pub open spec fn closing(error: Option<AppErrorView>) -> AiEventView {
    match error {
        None => AiEventView::Done,
        Some(e) => AiEventView::Error(error_text(e)),
    }
}

/// The event that closes a stream: the frontend learns of the end, or of the error.
pub fn closing_event(result: &AppResult<ChatOutcome>) -> (r: AiEvent)
    ensures
        r@ == closing(
            match result {
                Ok(_) => None,
                Err(e) => Some(e@),
            },
        ),
{
    match result {
        Ok(_) => AiEvent::Done,
        Err(e) => AiEvent::Error(e.message()),
    }
}

// ------------------------------------------------------------------------- laws

/// Asking for one event after the other yields exactly what the lines of the buffer amount to.
pub proof fn law_events_in_turn(b: Seq<u8>, p: Provider)
    ensures
        match next_frame(b, p).0 {
            FrameView::Ignored => stream_of(b, p) == (StreamView {
                deltas: seq![],
                failure: None,
                rest: next_frame(b, p).1,
            }),
            FrameView::Delta(t) => {
                let tail = stream_of(next_frame(b, p).1, p);
                stream_of(b, p) == (StreamView {
                    deltas: seq![t] + tail.deltas,
                    failure: tail.failure,
                    rest: tail.rest,
                })
            },
            FrameView::Failed(m) => stream_of(b, p) == (StreamView {
                deltas: seq![],
                failure: Some(m),
                rest: next_frame(b, p).1,
            }),
        },
    decreases b.len(),
{
    lemma_line_end(b);
    if let Some(n) = line_end(b) {
        if bytes_frame(b.take(n - 1), p) is Ignored {
            law_events_in_turn(b.skip(n), p);
        }
    }
}

/// Bytes that arrive later do not change what the complete lines before them amount to.
proof fn lemma_stream_extends(a: Seq<u8>, b: Seq<u8>, p: Provider)
    ensures
        stream_of(a, p).failure is None ==> stream_of(a + b, p) == (StreamView {
            deltas: stream_of(a, p).deltas + stream_of(stream_of(a, p).rest + b, p).deltas,
            failure: stream_of(stream_of(a, p).rest + b, p).failure,
            rest: stream_of(stream_of(a, p).rest + b, p).rest,
        }),
        stream_of(a, p).failure is Some ==> stream_of(a + b, p).failure == stream_of(a, p).failure
            && stream_of(a + b, p).deltas == stream_of(a, p).deltas,
    decreases a.len(),
{
    lemma_line_end(a);
    match line_end(a) {
        None => {
            let s = stream_of(a + b, p);
            assert(seq![] + s.deltas =~= s.deltas);
        },
        Some(n) => {
            assert((a + b)[n - 1] == a[n - 1]);
            assert forall|k: int| 0 <= k < n - 1 implies #[trigger] (a + b)[k] != 10 by {
                assert((a + b)[k] == a[k]);
            }
            lemma_line_end_at(a + b, n);
            assert((a + b).take(n - 1) =~= a.take(n - 1));
            assert((a + b).skip(n) =~= a.skip(n) + b);
            lemma_stream_extends(a.skip(n), b, p);
            let tail = stream_of(a.skip(n), p);
            match bytes_frame(a.take(n - 1), p) {
                FrameView::Delta(t) => {
                    if tail.failure is None {
                        let more = stream_of(tail.rest + b, p).deltas;
                        assert(seq![t] + (tail.deltas + more) =~= (seq![t] + tail.deltas) + more);
                    }
                },
                _ => {},
            }
        },
    }
}

/// What is left over holds no complete line.
proof fn lemma_rest_has_no_line(b: Seq<u8>, p: Provider)
    ensures
        stream_of(b, p).failure is None ==> line_end(stream_of(b, p).rest) is None,
    decreases b.len(),
{
    lemma_line_end(b);
    if let Some(n) = line_end(b) {
        lemma_rest_has_no_line(b.skip(n), p);
    }
}

/// Where the network cuts the stream is of no consequence: once the same bytes have arrived, in
/// whatever chunks, the same deltas have been handed out and the same bytes wait.
pub proof fn law_chunking_is_irrelevant(a: SseStream, b: SseStream)
    requires
        a.valid(),
        b.valid(),
        a.phase == Phase::Reading,
        b.phase == Phase::Reading,
        a.provider == b.provider,
        a.seen@ == b.seen@,
    ensures
        a.sent@ == b.sent@,
        a.full@ == b.full@,
        a.buf@ == b.buf@,
{
}

/// Whatever is handed out is a leading part of what the whole response amounts to, and the text is
/// made of it alone.
pub proof fn law_only_leading_deltas_are_sent(s: SseStream)
    requires
        s.valid(),
        s.phase != Phase::Over,
    ensures
        s.sent@.is_prefix_of(whole(s.seen@, s.provider).deltas),
        s.full@ == all_text(s.sent@),
{
    let w = whole(s.seen@, s.provider).deltas;
    assert(w.subrange(0, s.sent@.len() as int) =~= s.sent@);
}

/// An error that complete lines report stays what the response amounts to, whatever arrives later.
pub proof fn law_failures_are_final(a: Seq<u8>, b: Seq<u8>, p: Provider)
    requires
        stream_of(a, p).failure is Some,
    ensures
        whole(a + b, p).failure == stream_of(a, p).failure,
        whole(a + b, p).deltas == stream_of(a, p).deltas,
{
    lemma_stream_extends(a, b, p);
}

/// A newline at the end of a response makes no difference: its last line counts without one.
pub proof fn law_closing_newline_is_irrelevant(b: Seq<u8>, p: Provider)
    ensures
        whole(b.push(10), p).deltas == whole(b, p).deltas,
        whole(b.push(10), p).failure == whole(b, p).failure,
{
    let s = stream_of(b, p);
    let newline = seq![10u8];
    assert(b.push(10) =~= b + newline);
    lemma_stream_extends(b, newline, p);
    if s.failure is None {
        lemma_rest_has_no_line(b, p);
        lemma_line_end(s.rest);
        let last = s.rest + newline;
        let n = last.len() as int;
        assert forall|k: int| 0 <= k < n - 1 implies #[trigger] last[k] != 10 by {
            assert(last[k] == s.rest[k]);
        }
        lemma_line_end_at(last, n);
        assert(last.take(n - 1) =~= s.rest);
        let tail = stream_of(last.skip(n), p);
        assert(line_end(last.skip(n)) is None);
        assert(tail.deltas.len() == 0 && tail.failure is None && tail.rest.len() == 0);
        let more = stream_of(last, p);
        match bytes_frame(s.rest, p) {
            FrameView::Delta(t) => {
                assert(more.deltas =~= seq![t]);
                assert(s.deltas + more.deltas =~= s.deltas.push(t));
            },
            FrameView::Failed(m) => {
                assert(more.failure == Some(m));
                assert(s.deltas + more.deltas =~= s.deltas);
            },
            FrameView::Ignored => {
                assert(more == tail);
                assert(s.deltas + more.deltas =~= s.deltas);
            },
        }
    }
}

/// A response being consumed as it went: the inputs between the states, and the action that each
/// input led to.
pub struct StreamRun {
    pub states: Seq<SseStream>,
    pub inputs: Seq<StreamInput>,
    pub actions: Seq<ActionView>,
}

/// A stream of `p` went like this.
pub open spec fn is_stream_run(p: Provider, run: StreamRun) -> bool {
    &&& run.states.len() == run.inputs.len() + 1
    &&& run.actions.len() == run.inputs.len()
    &&& run.states[0].valid()
    &&& run.states[0].provider == p
    &&& run.states[0].phase == Phase::Reading
    &&& run.states[0].seen@.len() == 0
    &&& run.states[0].sent@.len() == 0
    &&& forall|i: int|
        0 <= i < run.inputs.len() ==> run.states[i].awaits(#[trigger] run.inputs[i]) && steps(
            run.states[i],
            run.inputs[i],
            run.states[i + 1],
            run.actions[i],
        )
}

/// The run consumes the response `b`, in whatever chunks: what arrives is the beginning of `b`, the
/// end comes behind all of it, and the frontend takes every event.
pub open spec fn consumes(run: StreamRun, b: Seq<u8>) -> bool {
    &&& forall|i: int| 0 <= i < run.states.len() ==> (#[trigger] run.states[i]).seen@.is_prefix_of(b)
    &&& forall|i: int|
        0 <= i < run.inputs.len() ==> !((#[trigger] run.inputs[i]) is Refused) && (
        run.inputs[i] is End ==> run.states[i].seen@ == b)
}

/// The deltas that were sent.
pub open spec fn sent_by(actions: Seq<ActionView>) -> Seq<Seq<char>>
    decreases actions.len(),
{
    if actions.len() == 0 {
        seq![]
    } else {
        let before = sent_by(actions.drop_last());
        match actions.last() {
            ActionView::Send(AiEventView::Delta(t)) => before.push(t),
            _ => before,
        }
    }
}

/// The result of a response: its first error, or else its whole text.
pub open spec fn verdict(all: StreamView) -> ActionView {
    match all.failure {
        Some(m) => ActionView::Fail(AppErrorView::Other(m)),
        None => ActionView::Finish { text: all_text(all.deltas), completed: true },
    }
}

/// What a run has sent, and whose provider it asks.
proof fn lemma_run_prefix(p: Provider, run: StreamRun, i: int)
    requires
        is_stream_run(p, run),
        0 <= i < run.states.len(),
    ensures
        run.states[i].provider == p,
        run.states[i].valid(),
        sent_by(run.actions.take(i)) == run.states[i].sent@,
    decreases i,
{
    if i == 0 {
        assert(run.actions.take(0) =~= seq![]);
        assert(run.states[0].sent@ =~= seq![]);
    } else {
        lemma_run_prefix(p, run, i - 1);
        let input = run.inputs[i - 1];
        assert(run.actions.take(i).drop_last() =~= run.actions.take(i - 1));
        assert(run.actions.take(i).last() == run.actions[i - 1]);
    }
}

/// The bytes that are left over are part of the bytes there were.
proof fn lemma_rest_is_shorter(b: Seq<u8>, p: Provider)
    ensures
        stream_of(b, p).rest.len() <= b.len(),
    decreases b.len(),
{
    lemma_line_end(b);
    if let Some(n) = line_end(b) {
        lemma_rest_is_shorter(b.skip(n), p);
    }
}

/// What a response leads to follows from its bytes alone: wherever the network cuts it, inside a
/// line or inside a character, the same events are sent and the same result is given. Left out are
/// responses beyond the cap on the buffer, which may or may not outgrow it in one chunk.
pub proof fn law_outcome_follows_from_the_bytes(p: Provider, run: StreamRun, b: Seq<u8>)
    requires
        is_stream_run(p, run),
        consumes(run, b),
        b.len() <= MAX_SSE_BUFFER,
        run.inputs.len() > 0,
        run.actions.last() is Finish || run.actions.last() is Fail,
    ensures
        run.actions.last() == verdict(whole(b, p)),
        sent_by(run.actions) == whole(b, p).deltas,
{
    let k = run.inputs.len() - 1;
    let before = run.states[k];
    let after = run.states[k + 1];
    let input = run.inputs[k];
    let action = run.actions[k];
    assert(before.awaits(input) && steps(before, input, after, action));
    assert(!(input is Refused));
    lemma_run_prefix(p, run, k);
    lemma_run_prefix(p, run, k + 1);
    assert(run.actions.take(k + 1) =~= run.actions);
    assert(after.seen@.is_prefix_of(b));
    if before.phase == Phase::Closing {
        assert(k > 0);
        let ended = run.inputs[k - 1];
        assert(run.states[k - 1].awaits(ended) && steps(
            run.states[k - 1],
            ended,
            before,
            run.actions[k - 1],
        ));
        assert(ended is End);
        assert(before.seen@ =~= b);
    }
    if action is Finish {
        assert(after.seen@ =~= b);
    } else if input is End {
        assert(after.seen@ =~= b);
    } else {
        lemma_rest_is_shorter(before.seen@, p);
        assert(before.buf@.len() + bytes_in(input).len() <= MAX_SSE_BUFFER);
        let later = b.skip(after.seen@.len() as int);
        assert(b =~= after.seen@ + later);
        law_failures_are_final(after.seen@, later, p);
    }
}

/// Two responses with the same bytes, or with the same bytes and a newline behind them, lead to the
/// same events and the same result.
pub proof fn law_same_bytes_same_outcome(
    p: Provider,
    run: StreamRun,
    b: Seq<u8>,
    other: StreamRun,
    c: Seq<u8>,
)
    requires
        is_stream_run(p, run),
        consumes(run, b),
        is_stream_run(p, other),
        consumes(other, c),
        c == b || c == b.push(10),
        b.len() <= MAX_SSE_BUFFER,
        c.len() <= MAX_SSE_BUFFER,
        run.inputs.len() > 0,
        run.actions.last() is Finish || run.actions.last() is Fail,
        other.inputs.len() > 0,
        other.actions.last() is Finish || other.actions.last() is Fail,
    ensures
        run.actions.last() == other.actions.last(),
        sent_by(run.actions) == sent_by(other.actions),
{
    law_outcome_follows_from_the_bytes(p, run, b);
    law_outcome_follows_from_the_bytes(p, other, c);
    law_closing_newline_is_irrelevant(b, p);
}

/// White space at the end of a text has no influence on its trimmed form.
proof fn lemma_trimmed_ignores_end(s: Seq<char>, w: char)
    requires
        is_white_space(w),
    ensures
        trimmed(s.push(w)) == trimmed(s),
{
    let n = lemma_without_start_bounds(s, Class::WhiteSpace);
    let longer = s.push(w);
    assert forall|k: int| 0 <= k < n implies Class::WhiteSpace.holds(#[trigger] longer[k]) by {
        assert(longer[k] == s[k]);
    }
    if n < s.len() {
        assert(longer[n] == s[n]);
        crate::text::lemma_without_start(longer, Class::WhiteSpace, n);
        assert(longer.skip(n) =~= s.skip(n).push(w));
        assert(s.skip(n).push(w).drop_last() =~= s.skip(n));
    } else {
        assert(longer[n] == w);
        crate::text::lemma_without_start(longer, Class::WhiteSpace, n + 1);
        assert(longer.skip(n + 1) =~= s.skip(n));
    }
}

/// A frame counts the same with and without the newline at its end.
pub proof fn law_final_newline_is_irrelevant(line: Seq<char>, p: Provider)
    ensures
        line_frame(line.push('\n'), p) == line_frame(line, p),
{
    lemma_trimmed_ignores_end(line, '\n');
}

/// Lines, each with its newline behind it.
pub open spec fn framed(lines: Seq<Seq<u8>>) -> Seq<u8>
    decreases lines.len(),
{
    if lines.len() == 0 {
        seq![]
    } else {
        lines[0].push(10) + framed(lines.drop_first())
    }
}

/// The first of several lines, and then the others.
proof fn lemma_framed_first(lines: Seq<Seq<u8>>, p: Provider)
    requires
        lines.len() > 0,
        forall|k: int| 0 <= k < lines[0].len() ==> #[trigger] lines[0][k] != 10,
    ensures
        line_end(framed(lines)) == Some(lines[0].len() as int + 1),
        framed(lines).take(lines[0].len() as int) == lines[0],
        framed(lines).skip(lines[0].len() as int + 1) == framed(lines.drop_first()),
{
    let b = framed(lines);
    let n = lines[0].len() as int;
    assert(b[n] == 10);
    assert forall|k: int| 0 <= k < n implies #[trigger] b[k] != 10 by {
        assert(b[k] == lines[0][k]);
    }
    lemma_line_end_at(b, n + 1);
    assert(b.take(n) =~= lines[0]);
    assert(b.skip(n + 1) =~= framed(lines.drop_first()));
}

proof fn lemma_all_text_is_concatenated(deltas: Seq<Seq<char>>)
    ensures
        all_text(deltas) == concatenated(deltas),
    decreases deltas.len(),
{
    if deltas.len() > 0 {
        lemma_all_text_is_concatenated(deltas.drop_last());
    }
}

proof fn lemma_delta_lines(lines: Seq<Seq<u8>>, texts: Seq<Seq<char>>, p: Provider)
    requires
        lines.len() == texts.len(),
        forall|i: int, k: int|
            0 <= i < lines.len() && 0 <= k < lines[i].len() ==> #[trigger] lines[i][k] != 10,
        forall|i: int|
            0 <= i < lines.len() ==> bytes_frame(#[trigger] lines[i], p) == FrameView::Delta(
                texts[i],
            ),
    ensures
        stream_of(framed(lines), p).deltas == texts,
        stream_of(framed(lines), p).failure is None,
        stream_of(framed(lines), p).rest.len() == 0,
    decreases lines.len(),
{
    if lines.len() == 0 {
        assert(line_end(framed(lines)) is None);
        assert(stream_of(framed(lines), p).deltas =~= texts);
    } else {
        lemma_framed_first(lines, p);
        assert(bytes_frame(lines[0], p) == FrameView::Delta(texts[0]));
        let later = lines.drop_first();
        let rest = texts.drop_first();
        assert forall|i: int, k: int|
            0 <= i < later.len() && 0 <= k < later[i].len() implies #[trigger] later[i][k] != 10 by {
            assert(later[i][k] == lines[i + 1][k]);
        }
        assert forall|i: int| 0 <= i < later.len() implies bytes_frame(#[trigger] later[i], p)
            == FrameView::Delta(rest[i]) by {
            assert(later[i] == lines[i + 1]);
        }
        lemma_delta_lines(later, rest, p);
        assert(seq![texts[0]] + rest =~= texts);
    }
}

/// A response of one delta after the other ends with all of them, in their order and character for
/// character: nothing is added between two pieces and nothing taken away.
pub proof fn law_answers_are_put_together_from_their_pieces(
    lines: Seq<Seq<u8>>,
    texts: Seq<Seq<char>>,
    p: Provider,
)
    requires
        lines.len() == texts.len(),
        forall|i: int, k: int|
            0 <= i < lines.len() && 0 <= k < lines[i].len() ==> #[trigger] lines[i][k] != 10,
        forall|i: int|
            0 <= i < lines.len() ==> bytes_frame(#[trigger] lines[i], p) == FrameView::Delta(
                texts[i],
            ),
    ensures
        whole(framed(lines), p).deltas == texts,
        verdict(whole(framed(lines), p)) == (ActionView::Finish {
            text: concatenated(texts),
            completed: true,
        }),
{
    lemma_delta_lines(lines, texts, p);
    lemma_all_text_is_concatenated(texts);
}

/// A line that reports an error ends the answer there: the pieces before it have been sent, and
/// nothing behind it counts.
pub proof fn law_errors_end_the_answer(
    lines: Seq<Seq<u8>>,
    texts: Seq<Seq<char>>,
    bad: Seq<u8>,
    m: Seq<char>,
    later: Seq<u8>,
    p: Provider,
)
    requires
        lines.len() == texts.len(),
        forall|i: int, k: int|
            0 <= i < lines.len() && 0 <= k < lines[i].len() ==> #[trigger] lines[i][k] != 10,
        forall|i: int|
            0 <= i < lines.len() ==> bytes_frame(#[trigger] lines[i], p) == FrameView::Delta(
                texts[i],
            ),
        forall|k: int| 0 <= k < bad.len() ==> #[trigger] bad[k] != 10,
        bytes_frame(bad, p) == FrameView::Failed(m),
    ensures
        whole(framed(lines) + bad.push(10) + later, p).deltas == texts,
        verdict(whole(framed(lines) + bad.push(10) + later, p)) == ActionView::Fail(
            AppErrorView::Other(m),
        ),
{
    let a = framed(lines);
    let last = bad.push(10);
    lemma_delta_lines(lines, texts, p);
    lemma_stream_extends(a, last, p);
    let rest = stream_of(a, p).rest;
    assert(rest + last =~= last);
    lemma_line_end_at(last, last.len() as int);
    assert(last.take(last.len() - 1) =~= bad);
    assert(stream_of(last, p).failure == Some(m));
    assert(texts + stream_of(last, p).deltas =~= texts);
    law_failures_are_final(a + last, later, p);
}

/// A line that amounts to nothing makes no difference wherever it stands.
pub proof fn law_idle_lines_vanish(before: Seq<u8>, idle: Seq<u8>, after: Seq<u8>, p: Provider)
    requires
        before.len() == 0 || before.last() == 10,
        forall|k: int| 0 <= k < idle.len() ==> #[trigger] idle[k] != 10,
        bytes_frame(idle, p) == FrameView::Ignored,
    ensures
        whole(before + (idle.push(10) + after), p).deltas == whole(before + after, p).deltas,
        whole(before + (idle.push(10) + after), p).failure == whole(before + after, p).failure,
{
    let more = idle.push(10) + after;
    let n = idle.len() as int + 1;
    assert(more[n - 1] == 10);
    assert forall|k: int| 0 <= k < n - 1 implies #[trigger] more[k] != 10 by {
        assert(more[k] == idle[k]);
    }
    lemma_line_end_at(more, n);
    assert(more.take(n - 1) =~= idle);
    assert(more.skip(n) =~= after);
    lemma_stream_extends(before, more, p);
    lemma_stream_extends(before, after, p);
    lemma_closed_lines_leave_nothing(before, p);
    if stream_of(before, p).failure is None {
        assert(stream_of(before, p).rest + more =~= more);
        assert(stream_of(before, p).rest + after =~= after);
    }
}

/// Nothing is left over where the bytes end with a newline.
proof fn lemma_closed_lines_leave_nothing(b: Seq<u8>, p: Provider)
    requires
        b.len() == 0 || b.last() == 10,
    ensures
        stream_of(b, p).failure is None ==> stream_of(b, p).rest.len() == 0,
    decreases b.len(),
{
    lemma_line_end(b);
    match line_end(b) {
        None => {
            if b.len() > 0 {
                assert(b[b.len() - 1] == 10);
            }
        },
        Some(n) => {
            let t = b.skip(n);
            if t.len() > 0 {
                assert(t.last() == b.last());
            }
            lemma_closed_lines_leave_nothing(t, p);
        },
    }
}

/// When the frontend leaves, the text gathered so far is given as a fragment; when the response ends
/// with nothing left over, it is given as complete.
pub proof fn law_results_say_whether_they_are_complete(
    p: Provider,
    phase: Phase,
    buf: Seq<u8>,
    full: Seq<char>,
)
    ensures
        step_of(p, phase, buf, full, StreamInput::Refused).action == (ActionView::Finish {
            text: full,
            completed: false,
        }),
        step_of(p, phase, Seq::empty(), full, StreamInput::End).action == (ActionView::Finish {
            text: full,
            completed: true,
        }),
{
}

/// A response whose lines are `data:` lines with one piece of the answer each ends with these pieces
/// put together, and each of them is sent on as it is.
pub proof fn law_streamed_answers(
    p: Provider,
    run: StreamRun,
    lines: Seq<Seq<u8>>,
    payloads: Seq<Seq<char>>,
    texts: Seq<Seq<char>>,
)
    requires
        lines.len() == texts.len(),
        lines.len() == payloads.len(),
        forall|i: int, k: int|
            0 <= i < lines.len() && 0 <= k < lines[i].len() ==> #[trigger] lines[i][k] != 10,
        forall|i: int|
            0 <= i < lines.len() ==> {
                let data = payloads[i];
                &&& (#[trigger] lines[i]).len() > 0
                &&& lossy_text(lines[i]) == "data: "@ + data
                &&& data.len() > 0 && !is_white_space(data[0]) && !is_white_space(data.last())
                &&& data != "[DONE]"@
                &&& json_document(data) == Some(smallest_frame(p, texts[i]))
            },
        is_stream_run(p, run),
        consumes(run, framed(lines)),
        framed(lines).len() <= MAX_SSE_BUFFER,
        run.inputs.len() > 0,
        run.actions.last() is Finish || run.actions.last() is Fail,
    ensures
        run.actions.last() == (ActionView::Finish { text: concatenated(texts), completed: true }),
        sent_by(run.actions) == texts,
{
    reveal_strlit("data: ");
    reveal_strlit("data:");
    let none = Seq::<char>::empty();
    assert forall|i: int| 0 <= i < lines.len() implies bytes_frame(#[trigger] lines[i], p)
        == FrameView::Delta(texts[i]) by {
        let data = payloads[i];
        law_data_lines(none, seq![' '], data, none, p);
        assert(none + "data:"@ + seq![' '] + data + none =~= "data: "@ + data);
        law_smallest_frames_carry_any_text(p, texts[i]);
    }
    law_answers_are_put_together_from_their_pieces(lines, texts, p);
    law_outcome_follows_from_the_bytes(p, run, framed(lines));
}

/// A line counts by its text; an empty one counts for nothing.
pub proof fn law_lines_count_by_their_text(line: Seq<u8>, p: Provider)
    ensures
        line.len() > 0 ==> bytes_frame(line, p) == line_frame(lossy_text(line), p),
        line.len() == 0 ==> bytes_frame(line, p) == FrameView::Ignored,
{
}

/// Bytes without a newline are gathered up to eight megabytes; a response that exceeds them is no
/// stream of events and is given up.
pub proof fn law_endless_lines_are_given_up(
    p: Provider,
    phase: Phase,
    buf: Seq<u8>,
    full: Seq<char>,
    chunk: Vec<u8>,
)
    requires
        forall|k: int| 0 <= k < buf.len() ==> #[trigger] buf[k] != 10,
        forall|k: int| 0 <= k < chunk@.len() ==> #[trigger] chunk@[k] != 10,
    ensures
        ({
            let next = step_of(p, phase, buf, full, StreamInput::Chunk(chunk));
            if buf.len() + chunk@.len() <= 8388608 {
                &&& next.action is Read
                &&& next.buf == buf + chunk@
                &&& next.full == full
            } else {
                next.action == ActionView::Fail(
                    AppErrorView::Other("AI stream error: response is not server-sent events"@),
                )
            }
        }),
{
    let b = buf + chunk@;
    lemma_line_end(b);
    if let Some(n) = line_end(b) {
        if n - 1 < buf.len() {
            assert(b[n - 1] == buf[n - 1]);
        } else {
            assert(b[n - 1] == chunk@[n - 1 - buf.len()]);
        }
    }
}

/// The frontend learns how a stream ended: that it is done, or the code or the message of its error.
pub proof fn law_streams_say_how_they_ended(code: Seq<char>, message: Seq<char>)
    ensures
        closing(None) is Done,
        closing(Some(AppErrorView::Code(code))) == AiEventView::Error(code),
        closing(Some(AppErrorView::Other(message))) == AiEventView::Error(message),
{
}

} // verus!
