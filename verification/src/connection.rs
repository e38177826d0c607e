//! The decisions of the loop that runs one tab's WebSocket: for each thing
//! the loop sees (a frame from the relay, a packet to send, the keep-alive
//! timer, a failure), what to tell the tab, what to write to the socket and
//! whether to stop. The loop itself, which awaits these, runs at the edge
//! of the program.

use crate::protocol::Packet;
use crate::session::SessionEvent;
use vstd::prelude::*;
use vstd::string::StringExecFns;

verus! {

/// What the connection loop saw.
#[derive(Debug)]
pub enum WsInput {
    /// Connecting failed, with the reason.
    ConnectFailed(String),
    /// A text frame, with the packet it decodes to (`None` when it does not
    /// decode; such frames are dropped).
    Text(Option<Packet>),
    /// A binary frame; the relay never sends one.
    Binary,
    /// A WebSocket ping with its payload.
    Ping(Vec<u8>),
    /// A WebSocket pong or raw frame.
    Pong,
    /// The relay closed the socket, with its reason if it gave one.
    Close(Option<String>),
    /// Reading failed, with the reason.
    StreamError(String),
    /// The stream ended without a close frame.
    StreamEnded,
    /// The tab queued an encoded packet.
    Outbound(String),
    /// The tab is gone.
    OutboundClosed,
    /// Writing a queued packet failed, with the reason.
    SendFailed(String),
    /// The keep-alive timer fired.
    KeepAlive,
}

/// What to write to the socket.
#[derive(Debug)]
pub enum WsOutput {
    /// A text frame.
    Text(String),
    /// The answer to a WebSocket ping.
    Pong(Vec<u8>),
    /// A close frame.
    Close,
    /// An application-level ping packet, to be encoded.
    PingPacket,
}

/// One decision of the loop.
#[derive(Debug)]
pub struct WsStep {
    pub event: Option<SessionEvent>,
    pub output: Option<WsOutput>,
    pub stop: bool,
}

/// A connection event as a value.
pub enum EventView {
    Connected,
    Packet(Packet),
    Closed(Seq<char>),
    Error(Seq<char>),
}

pub open spec fn event_view(e: SessionEvent) -> EventView {
    match e {
        SessionEvent::Connected => EventView::Connected,
        SessionEvent::Packet(p) => EventView::Packet(p),
        SessionEvent::Closed(m) => EventView::Closed(m@),
        SessionEvent::Error(m) => EventView::Error(m@),
    }
}

/// A write to the socket as a value.
pub enum OutputView {
    Text(Seq<char>),
    Pong(Seq<u8>),
    Close,
    PingPacket,
}

pub open spec fn output_view(o: WsOutput) -> OutputView {
    match o {
        WsOutput::Text(s) => OutputView::Text(s@),
        WsOutput::Pong(d) => OutputView::Pong(d@),
        WsOutput::Close => OutputView::Close,
        WsOutput::PingPacket => OutputView::PingPacket,
    }
}

pub open spec fn opt_seq<T>(o: Option<T>) -> Seq<T> {
    match o {
        Some(x) => seq![x],
        None => Seq::empty(),
    }
}

/// One step of the loop as values: the event for the tab, the write to the
/// socket, and whether the loop stops.
pub open spec fn step_spec(input: WsInput) -> (Option<EventView>, Option<OutputView>, bool) {
    match input {
        WsInput::ConnectFailed(d) => (Some(EventView::Error("connect: "@ + d@)), None, true),
        WsInput::Text(Some(p)) => (Some(EventView::Packet(p)), None, false),
        WsInput::Text(None) => (None, None, false),
        WsInput::Binary => (None, None, false),
        WsInput::Ping(d) => (None, Some(OutputView::Pong(d@)), false),
        WsInput::Pong => (None, None, false),
        WsInput::Close(reason) => (
            Some(
                EventView::Closed(
                    match reason {
                        Some(t) => t@,
                        None => Seq::empty(),
                    },
                ),
            ),
            None,
            true,
        ),
        WsInput::StreamError(d) => (Some(EventView::Error("stream: "@ + d@)), None, true),
        WsInput::StreamEnded => (Some(EventView::Closed("stream ended"@)), None, true),
        WsInput::Outbound(t) => (None, Some(OutputView::Text(t@)), false),
        WsInput::OutboundClosed => (None, Some(OutputView::Close), true),
        WsInput::SendFailed(d) => (Some(EventView::Error("send: "@ + d@)), None, true),
        WsInput::KeepAlive => (None, Some(OutputView::PingPacket), false),
    }
}

pub open spec fn step_view(r: WsStep) -> (Option<EventView>, Option<OutputView>, bool) {
    (
        match r.event {
            Some(e) => Some(event_view(e)),
            None => None,
        },
        match r.output {
            Some(o) => Some(output_view(o)),
            None => None,
        },
        r.stop,
    )
}

pub open spec fn stops(input: WsInput) -> bool {
    step_spec(input).2
}

/// A whole run of the loop over `inputs`: the events and writes of each
/// step in order, up to and including the first step that stops; whether
/// the loop stopped.
pub open spec fn run_spec(inputs: Seq<WsInput>) -> (Seq<EventView>, Seq<OutputView>, bool)
    decreases inputs.len(),
{
    if inputs.len() == 0 {
        (Seq::empty(), Seq::empty(), false)
    } else {
        let (e, o, stop) = step_spec(inputs[0]);
        if stop {
            (opt_seq(e), opt_seq(o), true)
        } else {
            let rest = run_spec(inputs.skip(1));
            (opt_seq(e) + rest.0, opt_seq(o) + rest.1, rest.2)
        }
    }
}

/// The packets decoded from the text frames among `inputs`, in order.
pub open spec fn decoded_packets(inputs: Seq<WsInput>) -> Seq<EventView>
    decreases inputs.len(),
{
    if inputs.len() == 0 {
        Seq::empty()
    } else {
        (match inputs[0] {
            WsInput::Text(Some(p)) => seq![EventView::Packet(p)],
            _ => Seq::<EventView>::empty(),
        }) + decoded_packets(inputs.skip(1))
    }
}

/// The writes that `inputs` ask for, in order: queued packets, answers to
/// pings and keep-alive pings.
pub open spec fn requested_writes(inputs: Seq<WsInput>) -> Seq<OutputView>
    decreases inputs.len(),
{
    if inputs.len() == 0 {
        Seq::empty()
    } else {
        opt_seq(step_spec(inputs[0]).1) + requested_writes(inputs.skip(1))
    }
}

/// While nothing stops the loop, the tab gets exactly the decoded packets,
/// in the order their frames came, and the socket gets exactly the writes
/// asked for, in order.
pub proof fn lemma_run_without_stop(inputs: Seq<WsInput>)
    requires
        forall|i: int| 0 <= i < inputs.len() ==> !stops(#[trigger] inputs[i]),
    ensures
        run_spec(inputs).0 == decoded_packets(inputs),
        run_spec(inputs).1 == requested_writes(inputs),
        !run_spec(inputs).2,
    decreases inputs.len(),
{
    if inputs.len() > 0 {
        assert(!stops(inputs[0]));
        let rest = inputs.skip(1);
        assert forall|i: int| 0 <= i < rest.len() implies !stops(#[trigger] rest[i]) by {
            assert(rest[i] == inputs[i + 1]);
        }
        lemma_run_without_stop(rest);
        match inputs[0] {
            WsInput::Text(Some(p)) => {},
            _ => {
                assert(opt_seq(step_spec(inputs[0]).0) =~= Seq::<EventView>::empty());
            },
        }
    }
}

/// Nothing after the first stopping input counts: the run over all inputs
/// is the run over the inputs up to and including it, and it stops.
pub proof fn lemma_run_ends_at_first_stop(inputs: Seq<WsInput>, i: int)
    requires
        0 <= i < inputs.len(),
        stops(inputs[i]),
        forall|j: int| 0 <= j < i ==> !stops(#[trigger] inputs[j]),
    ensures
        run_spec(inputs) == run_spec(inputs.take(i + 1)),
        run_spec(inputs).2,
    decreases i,
{
    if i > 0 {
        let rest = inputs.skip(1);
        assert forall|j: int| 0 <= j < i - 1 implies !stops(#[trigger] rest[j]) by {
            assert(rest[j] == inputs[j + 1]);
        }
        assert(rest[i - 1] == inputs[i]);
        lemma_run_ends_at_first_stop(rest, i - 1);
        assert(inputs.take(i + 1).skip(1) =~= rest.take(i));
        assert(inputs.take(i + 1)[0] == inputs[0]);
        assert(!stops(inputs[0]));
    } else {
        assert(inputs.take(1)[0] == inputs[0]);
    }
}

/// Only the last event of a run can be other than a decoded packet: a close
/// or an error ends the run.
pub proof fn lemma_run_events_end_with_close_or_error(inputs: Seq<WsInput>)
    ensures
        forall|k: int|
            0 <= k < run_spec(inputs).0.len() - 1 ==> (#[trigger] run_spec(inputs).0[k]) is Packet,
        !run_spec(inputs).2 ==> forall|k: int|
            0 <= k < run_spec(inputs).0.len() ==> (#[trigger] run_spec(inputs).0[k]) is Packet,
    decreases inputs.len(),
{
    if inputs.len() > 0 {
        let rest = inputs.skip(1);
        lemma_run_events_end_with_close_or_error(rest);
        let (e, o, stop) = step_spec(inputs[0]);
        if !stop {
            let evs = run_spec(inputs).0;
            let re = run_spec(rest).0;
            assert(evs == opt_seq(e) + re);
            assert(e is Some ==> e->Some_0 is Packet);
            assert forall|k: int| 0 <= k < evs.len() - 1 implies (#[trigger] evs[k]) is Packet by {
                if k >= opt_seq(e).len() {
                    assert(evs[k] == re[k - opt_seq(e).len()]);
                }
            }
            if !run_spec(inputs).2 {
                assert forall|k: int| 0 <= k < evs.len() implies (#[trigger] evs[k]) is Packet by {
                    if k >= opt_seq(e).len() {
                        assert(evs[k] == re[k - opt_seq(e).len()]);
                    }
                }
            }
        }
    }
}

/// The loop stops exactly when connecting fails, the relay closes or the
/// stream fails or ends, the tab is gone, or a write fails; a WebSocket
/// ping is answered with its own payload, a queued packet is written as it
/// is, and the keep-alive timer sends a ping packet.
pub proof fn lemma_step_stops_and_writes(input: WsInput)
    ensures
        stops(input) <==> (input is ConnectFailed || input is Close || input is StreamError
            || input is StreamEnded || input is OutboundClosed || input is SendFailed),
        input matches WsInput::Ping(d) ==> step_spec(input).1 == Some(OutputView::Pong(d@)),
        input matches WsInput::Outbound(t) ==> step_spec(input).1 == Some(OutputView::Text(t@)),
        input is KeepAlive ==> step_spec(input).1 == Some(OutputView::PingPacket),
        input is OutboundClosed ==> step_spec(input).1 == Some(OutputView::Close),
        !(input is Ping || input is Outbound || input is KeepAlive || input is OutboundClosed)
            ==> step_spec(input).1 is None,
{
}

/// `e` reports an error made of `prefix` and `detail`.
pub open spec fn is_error_event(e: Option<SessionEvent>, prefix: Seq<char>, detail: Seq<char>) -> bool {
    e matches Some(SessionEvent::Error(m)) && m@ == prefix + detail
}

fn error_event(prefix: &str, detail: String) -> (e: SessionEvent)
    ensures
        e matches SessionEvent::Error(m) && m@ == prefix@ + detail@,
{
    let mut m = String::from_str(prefix);
    m.append(detail.as_str());
    SessionEvent::Error(m)
}

/// What the loop does with `input`: decoded packets and closes reach the
/// tab, WebSocket pings are answered, queued packets are written, the timer
/// sends a keep-alive ping; any failure, a close or the end of either side
/// stops the loop.
pub fn ws_step(input: WsInput) -> (r: WsStep)
    ensures
        match input {
            WsInput::ConnectFailed(d) => is_error_event(r.event, "connect: "@, d@) && r.output is None
                && r.stop,
            WsInput::Text(Some(p)) => r.event == Some(SessionEvent::Packet(p)) && r.output is None
                && !r.stop,
            WsInput::Text(None) => r.event is None && r.output is None && !r.stop,
            WsInput::Binary => r.event is None && r.output is None && !r.stop,
            WsInput::Ping(d) => r.event is None && r.output == Some(WsOutput::Pong(d)) && !r.stop,
            WsInput::Pong => r.event is None && r.output is None && !r.stop,
            WsInput::Close(reason) => (r.event matches Some(SessionEvent::Closed(m)) && m@ == match reason {
                Some(t) => t@,
                None => Seq::<char>::empty(),
            }) && r.output is None && r.stop,
            WsInput::StreamError(d) => is_error_event(r.event, "stream: "@, d@) && r.output is None
                && r.stop,
            WsInput::StreamEnded => (r.event matches Some(SessionEvent::Closed(m)) && m@
                == "stream ended"@) && r.output is None && r.stop,
            WsInput::Outbound(s) => r.event is None && r.output == Some(WsOutput::Text(s)) && !r.stop,
            WsInput::OutboundClosed => r.event is None && r.output == Some(WsOutput::Close) && r.stop,
            WsInput::SendFailed(d) => is_error_event(r.event, "send: "@, d@) && r.output is None
                && r.stop,
            WsInput::KeepAlive => r.event is None && r.output == Some(WsOutput::PingPacket) && !r.stop,
        },
        step_view(r) == step_spec(input),
{
    match input {
        WsInput::ConnectFailed(d) => WsStep {
            event: Some(error_event("connect: ", d)),
            output: None,
            stop: true,
        },
        WsInput::Text(Some(p)) => WsStep { event: Some(SessionEvent::Packet(p)), output: None, stop: false },
        WsInput::Text(None) => WsStep { event: None, output: None, stop: false },
        WsInput::Binary => WsStep { event: None, output: None, stop: false },
        WsInput::Ping(d) => WsStep { event: None, output: Some(WsOutput::Pong(d)), stop: false },
        WsInput::Pong => WsStep { event: None, output: None, stop: false },
        WsInput::Close(reason) => {
            let m = match reason {
                Some(t) => t,
                None => String::new(),
            };
            WsStep { event: Some(SessionEvent::Closed(m)), output: None, stop: true }
        },
        WsInput::StreamError(d) => WsStep {
            event: Some(error_event("stream: ", d)),
            output: None,
            stop: true,
        },
        WsInput::StreamEnded => WsStep {
            event: Some(SessionEvent::Closed(String::from_str("stream ended"))),
            output: None,
            stop: true,
        },
        WsInput::Outbound(s) => WsStep { event: None, output: Some(WsOutput::Text(s)), stop: false },
        WsInput::OutboundClosed => WsStep { event: None, output: Some(WsOutput::Close), stop: true },
        WsInput::SendFailed(d) => WsStep {
            event: Some(error_event("send: ", d)),
            output: None,
            stop: true,
        },
        WsInput::KeepAlive => WsStep { event: None, output: Some(WsOutput::PingPacket), stop: false },
    }
}

} // verus!
