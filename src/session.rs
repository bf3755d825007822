//! The state machine of an open exec session: what to show, what to send
//! and what to do next for each received frame, at the end of the stream
//! and when the linger period is over.

use vstd::prelude::*;
use vstd::utf8::{decode_utf8, encode_utf8_decode_utf8, valid_utf8};
use crate::encoding::utf8_to_string;

verus! {

/// Seconds to wait after the receive phase ends before closing from this side.
pub const LINGER_SECS: u64 = 10;

/// A frame received from the peer.
#[derive(Debug, PartialEq, Eq)]
pub enum Frame {
    Text(String),
    Binary(Vec<u8>),
    Ping(Vec<u8>),
    Pong(Vec<u8>),
    Close,
    /// A raw protocol frame that is not one of the above.
    Raw,
}

/// Kinds of frame that the session receives but has no handling for.
#[derive(Clone, Copy, Debug, PartialEq, Eq, Structural)]
pub enum FrameKind {
    Pong,
    Raw,
}

/// What the session hands to its output sink.
#[derive(Debug, PartialEq, Eq)]
pub enum Output {
    /// A text frame's content.
    Text(String),
    /// A binary frame's content, decoded as UTF-8.
    BinaryText(String),
    /// A binary frame whose content is not UTF-8.
    DecodeFailed,
    /// A frame that is ignored.
    Unhandled(FrameKind),
}

/// A frame that the session sends to the peer.
#[derive(Debug, PartialEq, Eq)]
pub enum Outbound {
    Text(String),
    Pong(Vec<u8>),
    Close,
}

/// What the driver of the session does after a step.
#[derive(Clone, Copy, Debug, PartialEq, Eq, Structural)]
pub enum Next {
    /// Read the next frame.
    ReadNext,
    /// Wait `LINGER_SECS` seconds, then report that the linger is over.
    Linger,
    /// The session is over.
    Finish,
}

/// The answer to one event: something to show, something to send (sent
/// before anything else is read), and what comes next.
#[derive(Debug, PartialEq, Eq)]
pub struct Step {
    pub output: Option<Output>,
    pub send: Option<Outbound>,
    pub next: Next,
}

/// Lifecycle of a session.
#[derive(Clone, Copy, Debug, PartialEq, Eq, Structural)]
pub enum Phase {
    /// Receiving; replies are sent.
    Open,
    /// Receiving, but closing has begun: nothing more is sent, and the next
    /// frame ends the receive phase.
    Draining,
    /// The receive phase is over and the linger period runs; `close_owed`
    /// says whether a Close is to be sent when it ends.
    Lingering { close_owed: bool },
    /// Terminal.
    Closed,
}

pub enum OutputModel {
    Text(Seq<char>),
    BinaryText(Seq<char>),
    DecodeFailed,
    Unhandled(FrameKind),
}

pub enum SentModel {
    Text(Seq<char>),
    Pong(Seq<u8>),
    Close,
}

pub struct StepModel {
    pub output: Option<OutputModel>,
    pub send: Option<SentModel>,
    pub next: Next,
}

impl View for Output {
    type V = OutputModel;

    open spec fn view(&self) -> OutputModel {
        match self {
            Output::Text(t) => OutputModel::Text(t@),
            Output::BinaryText(t) => OutputModel::BinaryText(t@),
            Output::DecodeFailed => OutputModel::DecodeFailed,
            Output::Unhandled(k) => OutputModel::Unhandled(*k),
        }
    }
}

impl View for Outbound {
    type V = SentModel;

    open spec fn view(&self) -> SentModel {
        match self {
            Outbound::Text(t) => SentModel::Text(t@),
            Outbound::Pong(p) => SentModel::Pong(p@),
            Outbound::Close => SentModel::Close,
        }
    }
}

impl View for Step {
    type V = StepModel;

    open spec fn view(&self) -> StepModel {
        StepModel {
            output: match self.output {
                Some(o) => Some(o@),
                None => None,
            },
            send: match self.send {
                Some(s) => Some(s@),
                None => None,
            },
            next: self.next,
        }
    }
}

pub open spec fn quiet(next: Next) -> StepModel {
    StepModel { output: None, send: None, next }
}

pub open spec fn show(o: OutputModel) -> StepModel {
    StepModel { output: Some(o), send: None, next: Next::ReadNext }
}

/// Whether the closing flag is set: nothing but the final Close is ever sent
/// unless it is clear.
pub open spec fn is_closing(phase: Phase) -> bool {
    match phase {
        Phase::Open => false,
        Phase::Draining => true,
        Phase::Lingering { close_owed } => !close_owed,
        Phase::Closed => true,
    }
}

/// What comes next in a phase where nothing happens.
pub open spec fn idle_next(phase: Phase) -> Next {
    match phase {
        Phase::Open | Phase::Draining => Next::ReadNext,
        Phase::Lingering { .. } => Next::Linger,
        Phase::Closed => Next::Finish,
    }
}

/// The reaction to a received frame.
pub open spec fn frame_step(phase: Phase, frame: Frame) -> (Phase, StepModel) {
    match phase {
        Phase::Open => match frame {
            Frame::Text(t) => (Phase::Open, show(OutputModel::Text(t@))),
            Frame::Binary(b) => if valid_utf8(b@) {
                (
                    Phase::Open,
                    StepModel {
                        output: Some(OutputModel::BinaryText(decode_utf8(b@))),
                        send: Some(SentModel::Text(decode_utf8(b@))),
                        next: Next::ReadNext,
                    },
                )
            } else {
                (Phase::Open, show(OutputModel::DecodeFailed))
            },
            Frame::Ping(p) => (
                Phase::Open,
                StepModel { output: None, send: Some(SentModel::Pong(p@)), next: Next::ReadNext },
            ),
            Frame::Pong(_) => (Phase::Open, show(OutputModel::Unhandled(FrameKind::Pong))),
            Frame::Close => (Phase::Lingering { close_owed: true }, quiet(Next::Linger)),
            Frame::Raw => (Phase::Open, show(OutputModel::Unhandled(FrameKind::Raw))),
        },
        Phase::Draining => (Phase::Lingering { close_owed: false }, quiet(Next::Linger)),
        _ => (phase, quiet(idle_next(phase))),
    }
}

/// The reaction to the end of the stream or a read error.
pub open spec fn end_step(phase: Phase) -> (Phase, StepModel) {
    match phase {
        Phase::Open => (Phase::Lingering { close_owed: true }, quiet(Next::Linger)),
        Phase::Draining => (Phase::Lingering { close_owed: false }, quiet(Next::Linger)),
        _ => (phase, quiet(idle_next(phase))),
    }
}

/// The reaction to the end of the linger period.
pub open spec fn linger_step(phase: Phase) -> (Phase, StepModel) {
    match phase {
        Phase::Lingering { close_owed } => (
            Phase::Closed,
            StepModel {
                output: None,
                send: if close_owed {
                    Some(SentModel::Close)
                } else {
                    None
                },
                next: Next::Finish,
            },
        ),
        _ => (phase, quiet(idle_next(phase))),
    }
}

/// The phase once the closing flag is set.
pub open spec fn closing_phase(phase: Phase) -> Phase {
    match phase {
        Phase::Open => Phase::Draining,
        Phase::Lingering { .. } => Phase::Lingering { close_owed: false },
        _ => phase,
    }
}

/// One exec session's state. Many may run side by side; they share nothing.
pub struct Session {
    phase: Phase,
}

impl View for Session {
    type V = Phase;

    closed spec fn view(&self) -> Phase {
        self.phase
    }
}

impl Session {
    pub fn new() -> (r: Session)
        ensures
            r@ == Phase::Open,
    {
        Session { phase: Phase::Open }
    }

    pub fn phase(&self) -> (r: Phase)
        ensures
            r == self@,
    {
        self.phase
    }

    pub fn is_closing(&self) -> (r: bool)
        ensures
            r == is_closing(self@),
    {
        match self.phase {
            Phase::Open => false,
            Phase::Draining => true,
            Phase::Lingering { close_owed } => !close_owed,
            Phase::Closed => true,
        }
    }

    /// Sets the closing flag: from now on nothing is sent, and the session
    /// does not close from its side when the linger ends.
    pub fn begin_closing(&mut self)
        ensures
            final(self)@ == closing_phase(old(self)@),
            is_closing(final(self)@),
    {
        match self.phase {
            Phase::Open => {
                self.phase = Phase::Draining;
            },
            Phase::Lingering { .. } => {
                self.phase = Phase::Lingering { close_owed: false };
            },
            _ => {},
        }
    }

    fn idle(&self) -> (r: Step)
        ensures
            r@ == quiet(idle_next(self@)),
    {
        let next = match self.phase {
            Phase::Open | Phase::Draining => Next::ReadNext,
            Phase::Lingering { .. } => Next::Linger,
            Phase::Closed => Next::Finish,
        };
        Step { output: None, send: None, next }
    }

    /// Handles one received frame.
    pub fn on_frame(&mut self, frame: &Frame) -> (r: Step)
        ensures
            (final(self)@, r@) == frame_step(old(self)@, *frame),
            old(self)@ == Phase::Open ==> (frame matches Frame::Ping(p) ==> r@.send == Some(
                SentModel::Pong(p@),
            ) && r.output is None && r.next == Next::ReadNext),
            old(self)@ == Phase::Open ==> (frame matches Frame::Binary(b) ==> if valid_utf8(b@) {
                &&& r@.output == Some(OutputModel::BinaryText(decode_utf8(b@)))
                &&& r@.send == Some(SentModel::Text(decode_utf8(b@)))
                &&& r.next == Next::ReadNext
            } else {
                &&& r@.output == Some(OutputModel::DecodeFailed)
                &&& r.send is None
                &&& r.next == Next::ReadNext
            }),
            old(self)@ == Phase::Open && *frame is Close ==> r.send is None && r.next == Next::Linger,
            is_closing(old(self)@) ==> r.send is None && is_closing(final(self)@),
    {
        match self.phase {
            Phase::Open => match frame {
                Frame::Text(t) => Step { output: Some(Output::Text(t.clone())), send: None, next: Next::ReadNext },
                Frame::Binary(b) => match utf8_to_string(b.as_slice()) {
                    Some(text) => {
                        proof {
                            encode_utf8_decode_utf8(text@);
                        }
                        let echo = text.clone();
                        Step {
                            output: Some(Output::BinaryText(text)),
                            send: Some(Outbound::Text(echo)),
                            next: Next::ReadNext,
                        }
                    },
                    None => Step { output: Some(Output::DecodeFailed), send: None, next: Next::ReadNext },
                },
                Frame::Ping(p) => Step {
                    output: None,
                    send: Some(Outbound::Pong(p.clone())),
                    next: Next::ReadNext,
                },
                Frame::Pong(_) => Step {
                    output: Some(Output::Unhandled(FrameKind::Pong)),
                    send: None,
                    next: Next::ReadNext,
                },
                Frame::Close => {
                    self.phase = Phase::Lingering { close_owed: true };
                    Step { output: None, send: None, next: Next::Linger }
                },
                Frame::Raw => Step {
                    output: Some(Output::Unhandled(FrameKind::Raw)),
                    send: None,
                    next: Next::ReadNext,
                },
            },
            Phase::Draining => {
                self.phase = Phase::Lingering { close_owed: false };
                Step { output: None, send: None, next: Next::Linger }
            },
            _ => self.idle(),
        }
    }

    /// Handles the end of the stream, or a failed read: the receive phase ends.
    pub fn on_stream_end(&mut self) -> (r: Step)
        ensures
            (final(self)@, r@) == end_step(old(self)@),
            r.send is None,
    {
        match self.phase {
            Phase::Open => {
                self.phase = Phase::Lingering { close_owed: true };
                Step { output: None, send: None, next: Next::Linger }
            },
            Phase::Draining => {
                self.phase = Phase::Lingering { close_owed: false };
                Step { output: None, send: None, next: Next::Linger }
            },
            _ => self.idle(),
        }
    }

    /// Handles the end of the linger period: closes from this side unless
    /// the closing flag is set.
    pub fn on_linger_elapsed(&mut self) -> (r: Step)
        ensures
            (final(self)@, r@) == linger_step(old(self)@),
            old(self)@ is Lingering ==> (r.send is Some <==> !is_closing(old(self)@))
                && final(self)@ == Phase::Closed && r.next == Next::Finish,
    {
        match self.phase {
            Phase::Lingering { close_owed } => {
                self.phase = Phase::Closed;
                let send = if close_owed {
                    Some(Outbound::Close)
                } else {
                    None
                };
                Step { output: None, send, next: Next::Finish }
            },
            _ => self.idle(),
        }
    }
}

/// Anything that moves a session on.
pub enum Event {
    Received(Frame),
    StreamEnded,
    LingerElapsed,
    CloseRequested,
}

pub open spec fn event_step(phase: Phase, e: Event) -> (Phase, StepModel) {
    match e {
        Event::Received(f) => frame_step(phase, f),
        Event::StreamEnded => end_step(phase),
        Event::LingerElapsed => linger_step(phase),
        Event::CloseRequested => (closing_phase(phase), quiet(idle_next(closing_phase(phase)))),
    }
}

pub open spec fn sent_by(st: StepModel) -> Seq<SentModel> {
    match st.send {
        Some(s) => seq![s],
        None => seq![],
    }
}

/// The phase reached and the frames sent, in order, over a run of events.
pub open spec fn run(phase: Phase, events: Seq<Event>) -> (Phase, Seq<SentModel>)
    decreases events.len(),
{
    if events.len() == 0 {
        (phase, seq![])
    } else {
        let (p, sent) = run(phase, events.drop_last());
        let (q, st) = event_step(p, events.last());
        (q, sent + sent_by(st))
    }
}

/// Once the closing flag is set it stays set, and no event whatever makes
/// the session send anything: no Pong, no echo, no Close.
pub proof fn lemma_closing_sends_nothing(phase: Phase, events: Seq<Event>)
    requires
        is_closing(phase),
    ensures
        is_closing(run(phase, events).0),
        run(phase, events).1 == Seq::<SentModel>::empty(),
    decreases events.len(),
{
    if events.len() > 0 {
        lemma_closing_sends_nothing(phase, events.drop_last());
        let p = run(phase, events.drop_last()).0;
        assert(event_step(p, events.last()).1.send is None);
        assert(run(phase, events).1 =~= Seq::<SentModel>::empty());
    }
}

/// A Close frame received while open ends the receive phase: nothing is
/// sent for it nor for any frame after it, and when the linger ends the
/// session sends its own Close and is done.
pub proof fn lemma_close_frame_ends_receiving(frames: Seq<Frame>)
    ensures
        run(Phase::Open, seq![Event::Received(Frame::Close)] + frames.map_values(|f: Frame| Event::Received(f)))
            == (Phase::Lingering { close_owed: true }, Seq::<SentModel>::empty()),
        frame_step(Phase::Open, Frame::Close).1.next == Next::Linger,
        linger_step(Phase::Lingering { close_owed: true }) == (
            Phase::Closed,
            StepModel { output: None, send: Some(SentModel::Close), next: Next::Finish },
        ),
    decreases frames.len(),
{
    let events = seq![Event::Received(Frame::Close)] + frames.map_values(|f: Frame| Event::Received(f));
    if frames.len() == 0 {
        assert(events.drop_last() =~= Seq::<Event>::empty());
        assert(run(Phase::Open, events.drop_last()) == (Phase::Open, Seq::<SentModel>::empty()));
        assert(events.last() == Event::Received(Frame::Close));
        assert(run(Phase::Open, events).1 =~= Seq::<SentModel>::empty());
    } else {
        lemma_close_frame_ends_receiving(frames.drop_last());
        assert(events.drop_last() =~= seq![Event::Received(Frame::Close)] + frames.drop_last().map_values(
            |f: Frame| Event::Received(f),
        ));
        assert(events.last() == Event::Received(frames.last()));
        assert(run(Phase::Open, events).1 =~= Seq::<SentModel>::empty());
    }
}

/// The frames sent over a run of steps, in order.
pub open spec fn sent_over(steps: Seq<Step>) -> Seq<SentModel>
    decreases steps.len(),
{
    if steps.len() == 0 {
        seq![]
    } else {
        sent_over(steps.drop_last()) + sent_by(steps.last()@)
    }
}

impl Session {
    /// Handles one event of any kind.
    pub fn on_event(&mut self, e: &Event) -> (r: Step)
        ensures
            (final(self)@, r@) == event_step(old(self)@, *e),
    {
        match e {
            Event::Received(f) => self.on_frame(f),
            Event::StreamEnded => self.on_stream_end(),
            Event::LingerElapsed => self.on_linger_elapsed(),
            Event::CloseRequested => {
                self.begin_closing();
                self.idle()
            },
        }
    }

    /// Handles the events in order, as a scripted peer would deliver them,
    /// and returns the step taken for each.
    pub fn replay(&mut self, events: &Vec<Event>) -> (r: Vec<Step>)
        ensures
            r@.len() == events@.len(),
            forall|i: int| 0 <= i < r@.len() ==> (#[trigger] r@[i])@ == event_step(
                run(old(self)@, events@.subrange(0, i)).0,
                events@[i],
            ).1,
            final(self)@ == run(old(self)@, events@).0,
            sent_over(r@) == run(old(self)@, events@).1,
    {
        let ghost start = self@;
        let mut steps: Vec<Step> = Vec::new();
        let mut i: usize = 0;
        while i < events.len()
            invariant
                i <= events@.len(),
                steps@.len() == i,
                forall|j: int| 0 <= j < i ==> (#[trigger] steps@[j])@ == event_step(
                    run(start, events@.subrange(0, j)).0,
                    events@[j],
                ).1,
                self@ == run(start, events@.subrange(0, i as int)).0,
                sent_over(steps@) == run(start, events@.subrange(0, i as int)).1,
            decreases events@.len() - i,
        {
            let ghost before = steps@;
            let step = self.on_event(&events[i]);
            steps.push(step);
            proof {
                let pre = events@.subrange(0, i as int);
                let now = events@.subrange(0, i + 1);
                assert(now.drop_last() =~= pre);
                assert(now.last() == events@[i as int]);
                assert(steps@.drop_last() =~= before);
            }
            i = i + 1;
        }
        assert(events@.subrange(0, i as int) =~= events@);
        steps
    }
}

} // verus!
