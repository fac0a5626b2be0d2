//! One request/reply exchange on a CTAPHID connection, as a state machine.
//!
//! The caller performs the actions (reading a packet, asking the application
//! which commands it registered, calling the application, sending the reply)
//! and feeds what happened back as events; the exchange decides what comes
//! next. A fresh exchange starts by reading a packet.

use vstd::prelude::*;
use crate::error::ServerError;
use crate::frame::{cont_count, cont_packet, init_packet, lemma_cont_count, message_packets, MAX_FRAMED_LEN, PACKET_SIZE};
use crate::reassembly::{
    accept_packet, assembly_complete, assembly_wf, framed_progress, lemma_accept_wf,
    lemma_complete_fits, lemma_start_framed, lemma_start_wf,
    lemma_step_framed, sequence_exhausted, start_assembly, Assembly, Reassembly,
};
use crate::server::{
    call_reply, call_reply_spec, message_bytes, plan_dispatch, plan_spec, route_message,
    route_spec, AppError, Dispatch, Message, Planning, Reply, Response, Route, Routing,
    MESSAGE_CAPACITY,
};

verus! {

/// Where an exchange stands, in mathematical terms.
pub enum StageView {
    /// Waiting for the first packet of a request.
    Start,
    /// Waiting for the next continuation packet.
    Assembling(Assembly),
    /// Waiting for the list of commands the application registered.
    Dispatching { channel: u32, command: u8, payload: Seq<u8> },
    /// Waiting for the application to handle the request.
    Calling { channel: u32, command: u8 },
    /// The exchange is over.
    Done,
}

/// What happened after an action, in mathematical terms.
pub enum EventView {
    PacketRead(Seq<u8>),
    ReadFailed,
    CommandsListed(Seq<u8>),
    AppReturned(Result<(), AppError>, Seq<u8>),
}

/// What to do next, in mathematical terms.
pub enum ActionView {
    ReadPacket,
    ListCommands,
    CallApp { command: u8, request: Seq<u8> },
    Send(Reply),
    Disconnected,
    ContinuationReadFailed,
    Failed(ServerError),
}

/// The action that follows a routing decision.
#[verifier::opaque]
pub open spec fn routed(a: Assembly, last: u32) -> (StageView, u32, ActionView) {
    let (next, routing) = route_spec(last, a.channel, a.command, a.received);
    match routing {
        Routing::Reply(r) => (StageView::Done, next, ActionView::Send(r)),
        Routing::Dispatch => (
            StageView::Dispatching { channel: a.channel, command: a.command, payload: a.received },
            next,
            ActionView::ListCommands,
        ),
        Routing::Refused(e) => (StageView::Done, next, ActionView::Failed(e)),
    }
}

/// After a packet was added: read on while the payload is incomplete,
/// otherwise route the message.
pub open spec fn after_packet(a: Assembly, last: u32) -> (StageView, u32, ActionView) {
    if assembly_complete(a) {
        routed(a, last)
    } else {
        (StageView::Assembling(a), last, ActionView::ReadPacket)
    }
}

/// The events the exchange expects in each stage. A packet must be a whole
/// packet, and must not step the sequence counter past its last value.
pub open spec fn event_allowed(s: StageView, e: EventView) -> bool {
    match s {
        StageView::Start => match e {
            EventView::PacketRead(p) => p.len() == PACKET_SIZE,
            EventView::ReadFailed => true,
            _ => false,
        },
        StageView::Assembling(a) => match e {
            EventView::PacketRead(p) => p.len() == PACKET_SIZE && !sequence_exhausted(a, p),
            EventView::ReadFailed => true,
            _ => false,
        },
        StageView::Dispatching { .. } => e is CommandsListed,
        StageView::Calling { .. } => e is AppReturned,
        StageView::Done => false,
    }
}

/// One step of an exchange: the next stage, the last allocated channel, and
/// the action to perform.
pub open spec fn step_spec(s: StageView, last: u32, e: EventView) -> (StageView, u32, ActionView) {
    match s {
        StageView::Start => match e {
            EventView::PacketRead(p) => match start_assembly(p) {
                Ok(a) => after_packet(a, last),
                Err(err) => (StageView::Done, last, ActionView::Failed(err)),
            },
            _ => (StageView::Done, last, ActionView::Disconnected),
        },
        StageView::Assembling(a) => match e {
            EventView::PacketRead(p) => match accept_packet(a, p) {
                Ok(b) => after_packet(b, last),
                Err(err) => (StageView::Done, last, ActionView::Failed(err)),
            },
            _ => (StageView::Done, last, ActionView::ContinuationReadFailed),
        },
        StageView::Dispatching { channel, command, payload } => match e {
            EventView::CommandsListed(codes) => match plan_spec(channel, command, codes, payload) {
                Planning::Reply(r) => (StageView::Done, last, ActionView::Send(r)),
                Planning::Call(req) => (
                    StageView::Calling { channel, command },
                    last,
                    ActionView::CallApp { command, request: req },
                ),
                Planning::Refused(err) => (StageView::Done, last, ActionView::Failed(err)),
            },
            _ => (StageView::Done, last, ActionView::Disconnected),
        },
        StageView::Calling { channel, command } => match e {
            EventView::AppReturned(outcome, resp) => (
                StageView::Done,
                last,
                ActionView::Send(call_reply_spec(channel, command, outcome, resp)),
            ),
            _ => (StageView::Done, last, ActionView::Disconnected),
        },
        StageView::Done => (StageView::Done, last, ActionView::Disconnected),
    }
}

/// A consistent stage.
pub open spec fn stage_wf(s: StageView) -> bool {
    match s {
        StageView::Assembling(a) => assembly_wf(a) && !assembly_complete(a),
        StageView::Dispatching { payload, .. } => payload.len() <= MAX_FRAMED_LEN,
        _ => true,
    }
}

/// The actions an exchange takes for a sequence of events.
pub open spec fn run_exchange(s: StageView, last: u32, events: Seq<EventView>) -> Seq<ActionView>
    decreases events.len(),
{
    if events.len() == 0 {
        Seq::empty()
    } else {
        let (next, l, a) = step_spec(s, last, events[0]);
        seq![a] + run_exchange(next, l, events.drop_first())
    }
}

/// The events of reading, one by one, the packets that frame a message.
pub open spec fn framed_events(cid: u32, cmd: u8, data: Seq<u8>) -> Seq<EventView> {
    message_packets(cid, cmd, data).map_values(|p: Seq<u8>| EventView::PacketRead(p))
}

/// Every event of the sequence is one the exchange expects at that point.
pub open spec fn all_allowed(s: StageView, last: u32, events: Seq<EventView>) -> bool
    decreases events.len(),
{
    events.len() == 0 || (event_allowed(s, events[0]) && {
        let (next, l, a) = step_spec(s, last, events[0]);
        all_allowed(next, l, events.drop_first())
    })
}

/// Where an exchange stands, and the last allocated channel, after a
/// sequence of events.
pub open spec fn exchange_state(s: StageView, last: u32, events: Seq<EventView>) -> (StageView, u32)
    decreases events.len(),
{
    if events.len() == 0 {
        (s, last)
    } else {
        let (next, l, a) = step_spec(s, last, events[0]);
        exchange_state(next, l, events.drop_first())
    }
}

/// Running an exchange over two sequences of events in turn takes the
/// actions of the first, then those of the second from where the first left
/// off.
pub proof fn lemma_run_concat(s: StageView, last: u32, first: Seq<EventView>, second: Seq<EventView>)
    ensures
        run_exchange(s, last, first + second) == run_exchange(s, last, first) + run_exchange(
            exchange_state(s, last, first).0,
            exchange_state(s, last, first).1,
            second,
        ),
    decreases first.len(),
{
    if first.len() == 0 {
        assert(first + second =~= second);
        assert(run_exchange(s, last, first) =~= Seq::<ActionView>::empty());
        assert(Seq::<ActionView>::empty() + run_exchange(s, last, second) =~= run_exchange(
            s,
            last,
            second,
        ));
    } else {
        let (next, l, a) = step_spec(s, last, first[0]);
        assert((first + second)[0] == first[0]);
        assert((first + second).drop_first() =~= first.drop_first() + second);
        lemma_run_concat(next, l, first.drop_first(), second);
        assert(run_exchange(s, last, first + second) =~= run_exchange(s, last, first)
            + run_exchange(exchange_state(s, last, first).0, exchange_state(s, last, first).1, second));
    }
}

/// `n` reads of further packets.
pub open spec fn reads(n: nat) -> Seq<ActionView> {
    Seq::new(n, |i: int| ActionView::ReadPacket)
}

proof fn lemma_assembling_run(cid: u32, cmd: u8, data: Seq<u8>, last: u32, k: nat)
    requires
        data.len() <= MAX_FRAMED_LEN,
        cmd & 0x80u8 != 0,
        k < cont_count(data.len()),
    ensures
        ({
            let n = cont_count(data.len());
            let events = framed_events(cid, cmd, data).subrange(k + 1int, n + 1int);
            let start = StageView::Assembling(framed_progress(cid, cmd, data, k));
            &&& all_allowed(start, last, events)
            &&& run_exchange(start, last, events) == reads((n - k - 1) as nat) + seq![
                routed(framed_progress(cid, cmd, data, n), last).2,
            ]
            &&& exchange_state(start, last, events) == (
                routed(framed_progress(cid, cmd, data, n), last).0,
                routed(framed_progress(cid, cmd, data, n), last).1,
            )
        }),
    decreases cont_count(data.len()) - k,
{
    let n = cont_count(data.len());
    let pkts = message_packets(cid, cmd, data);
    let events = framed_events(cid, cmd, data).subrange(k + 1int, n + 1int);
    lemma_step_framed(cid, cmd, data, k);
    let pk = framed_progress(cid, cmd, data, k);
    let pkt = cont_packet(cid, k, data);
    assert(pkts[k + 1int] == pkt);
    assert(events[0] == EventView::PacketRead(pkt));
    assert(pkt.len() == PACKET_SIZE);
    assert(!sequence_exhausted(pk, pkt));
    let rest = events.drop_first();
    let pk1 = framed_progress(cid, cmd, data, k + 1);
    assert(step_spec(StageView::Assembling(pk), last, events[0]) == after_packet(pk1, last));
    if k + 1 < n {
        lemma_assembling_run(cid, cmd, data, last, k + 1);
        assert(!assembly_complete(pk1));
        assert(after_packet(pk1, last) == (
            StageView::Assembling(pk1),
            last,
            ActionView::ReadPacket,
        ));
        assert(rest =~= framed_events(cid, cmd, data).subrange(k + 2int, n + 1int));
        assert(all_allowed(StageView::Assembling(pk1), last, rest));
        assert(exchange_state(StageView::Assembling(pk1), last, rest) == (
            routed(framed_progress(cid, cmd, data, n), last).0,
            routed(framed_progress(cid, cmd, data, n), last).1,
        ));
        assert(reads((n - k - 1) as nat) =~= seq![ActionView::ReadPacket] + reads(
            (n - k - 2) as nat,
        ));
    } else {
        assert(rest.len() == 0);
        lemma_cont_count(data.len(), n);
        assert(assembly_complete(pk1));
        assert(after_packet(pk1, last) == routed(pk1, last));
        assert(all_allowed(routed(pk1, last).0, routed(pk1, last).1, rest));
        assert(exchange_state(routed(pk1, last).0, routed(pk1, last).1, rest) == (
            routed(pk1, last).0,
            routed(pk1, last).1,
        ));
        assert(run_exchange(routed(pk1, last).0, routed(pk1, last).1, rest) =~= Seq::<
            ActionView,
        >::empty());
        assert(reads((n - k - 1) as nat) =~= Seq::<ActionView>::empty());
    }
}

/// A framed request reaches routing intact: reading its packets one by one,
/// the exchange asks for exactly one more packet after each packet but the
/// last, never meets a packet it does not expect, and after the last packet
/// acts on the message as routing decides for the original channel, command
/// (without its initialization bit) and payload.
pub proof fn lemma_framed_request_is_routed(cid: u32, cmd: u8, data: Seq<u8>, last: u32)
    requires
        data.len() <= MAX_FRAMED_LEN,
        cmd & 0x80u8 != 0,
    ensures
        ({
            let n = cont_count(data.len());
            let events = framed_events(cid, cmd, data);
            let whole = framed_progress(cid, cmd, data, n);
            &&& whole.channel == cid
            &&& whole.command == cmd & 0x7fu8
            &&& whole.received == data
            &&& all_allowed(StageView::Start, last, events)
            &&& run_exchange(StageView::Start, last, events) == reads(n) + seq![
                routed(whole, last).2,
            ]
            &&& exchange_state(StageView::Start, last, events) == (
                routed(whole, last).0,
                routed(whole, last).1,
            )
        }),
{
    let len = data.len();
    let n = cont_count(len);
    let pkts = message_packets(cid, cmd, data);
    let events = framed_events(cid, cmd, data);
    lemma_start_framed(cid, cmd, data);
    lemma_cont_count(len, n);
    lemma_cont_count(len, 0);
    let whole = framed_progress(cid, cmd, data, n);
    assert(whole.received =~= data);
    let p0 = framed_progress(cid, cmd, data, 0);
    assert(pkts[0] == init_packet(cid, cmd, data));
    assert(events[0] == EventView::PacketRead(pkts[0]));
    assert(pkts[0].len() == PACKET_SIZE);
    assert(step_spec(StageView::Start, last, events[0]) == after_packet(p0, last));
    let rest = events.drop_first();
    if n == 0 {
        assert(rest.len() == 0);
        assert(assembly_complete(p0));
        assert(p0 == whole);
        assert(after_packet(p0, last) == routed(p0, last));
        assert(all_allowed(routed(p0, last).0, routed(p0, last).1, rest));
        assert(exchange_state(routed(p0, last).0, routed(p0, last).1, rest) == (
            routed(p0, last).0,
            routed(p0, last).1,
        ));
        assert(run_exchange(routed(p0, last).0, routed(p0, last).1, rest) =~= Seq::<
            ActionView,
        >::empty());
        assert(reads(0) =~= Seq::<ActionView>::empty());
    } else {
        assert(!assembly_complete(p0));
        assert(after_packet(p0, last) == (StageView::Assembling(p0), last, ActionView::ReadPacket));
        lemma_assembling_run(cid, cmd, data, last, 0);
        assert(rest =~= events.subrange(1, n + 1int));
        assert(all_allowed(StageView::Assembling(p0), last, rest));
        assert(exchange_state(StageView::Assembling(p0), last, rest) == (
            routed(framed_progress(cid, cmd, data, n), last).0,
            routed(framed_progress(cid, cmd, data, n), last).1,
        ));
        assert(reads(n) =~= seq![ActionView::ReadPacket] + reads((n - 1) as nat));
    }
}

/// A framed `PING` is answered on its channel with its own payload.
pub proof fn lemma_ping_is_echoed(cid: u32, data: Seq<u8>, last: u32)
    requires
        data.len() <= MAX_FRAMED_LEN,
    ensures
        run_exchange(StageView::Start, last, framed_events(cid, 0x81u8, data)) == reads(
            cont_count(data.len()),
        ) + seq![ActionView::Send(Reply { channel: cid, command: 0x81u8, payload: data })],
{
    assert(0x81u8 & 0x80u8 != 0 && 0x81u8 & 0x7fu8 == 1u8 && 1u8 | 0x80u8 == 0x81u8)
        by (bit_vector);
    lemma_framed_request_is_routed(cid, 0x81u8, data, last);
    let whole = framed_progress(cid, 0x81u8, data, cont_count(data.len()));
    reveal(routed);
    assert(routed(whole, last).2 == ActionView::Send(
        Reply { channel: cid, command: 0x81u8, payload: data },
    ));
}

/// A framed `INIT` is answered on its channel with its nonce and the next
/// channel identifier.
pub proof fn lemma_init_allocates_channel(cid: u32, nonce: Seq<u8>, last: u32)
    requires
        nonce.len() <= MAX_FRAMED_LEN,
    ensures
        run_exchange(StageView::Start, last, framed_events(cid, 0x86u8, nonce)) == reads(
            cont_count(nonce.len()),
        ) + seq![
            ActionView::Send(
                Reply {
                    channel: cid,
                    command: 0x86u8,
                    payload: crate::server::init_reply_payload(
                        nonce,
                        crate::server::next_channel_id(last),
                    ),
                },
            ),
        ],
{
    assert(0x86u8 & 0x80u8 != 0 && 0x86u8 & 0x7fu8 == 6u8 && 6u8 | 0x80u8 == 0x86u8)
        by (bit_vector);
    lemma_framed_request_is_routed(cid, 0x86u8, nonce, last);
    let whole = framed_progress(cid, 0x86u8, nonce, cont_count(nonce.len()));
    reveal(routed);
}

/// A framed request for any command that goes to the application (known,
/// neither `INIT` nor `PING`), registered by it and fitting in an application
/// message: after its packets the exchange asks for the registered commands,
/// and then calls the application with that command (without the
/// initialization bit) and exactly the payload that was framed.
pub proof fn lemma_framed_request_reaches_application(
    cid: u32,
    cmd: u8,
    data: Seq<u8>,
    registered: Seq<u8>,
    last: u32,
)
    requires
        data.len() <= MESSAGE_CAPACITY,
        cmd & 0x80u8 != 0,
        crate::server::is_known_command(cmd & 0x7fu8),
        cmd & 0x7fu8 != crate::server::CTAPHID_INIT,
        cmd & 0x7fu8 != crate::server::CTAPHID_PING,
        registered.contains(cmd & 0x7fu8),
    ensures
        run_exchange(
            StageView::Start,
            last,
            framed_events(cid, cmd, data).push(EventView::CommandsListed(registered)),
        ) == reads(cont_count(data.len())) + seq![
            ActionView::ListCommands,
            ActionView::CallApp { command: cmd & 0x7fu8, request: data },
        ],
{
    crate::server::lemma_messages_fit_framing();
    let events = framed_events(cid, cmd, data);
    let tail = seq![EventView::CommandsListed(registered)];
    lemma_framed_request_is_routed(cid, cmd, data, last);
    let n = cont_count(data.len());
    let whole = framed_progress(cid, cmd, data, n);
    reveal(routed);
    let dispatching = StageView::Dispatching { channel: cid, command: cmd & 0x7fu8, payload: data };
    assert(routed(whole, last) == (dispatching, last, ActionView::ListCommands));
    assert(events.push(EventView::CommandsListed(registered)) =~= events + tail);
    lemma_run_concat(StageView::Start, last, events, tail);
    assert(tail.drop_first() =~= Seq::<EventView>::empty());
    let calling = StageView::Calling { channel: cid, command: cmd & 0x7fu8 };
    assert(plan_spec(cid, cmd & 0x7fu8, registered, data) == Planning::Call(data));
    assert(step_spec(dispatching, last, tail[0]) == (
        calling,
        last,
        ActionView::CallApp { command: cmd & 0x7fu8, request: data },
    ));
    assert(run_exchange(calling, last, tail.drop_first()) == Seq::<ActionView>::empty());
    assert(run_exchange(dispatching, last, tail) =~= seq![
        ActionView::CallApp { command: cmd & 0x7fu8, request: data },
    ]);
    assert(reads(n) + seq![ActionView::ListCommands] + seq![
        ActionView::CallApp { command: cmd & 0x7fu8, request: data },
    ] =~= reads(n) + seq![
        ActionView::ListCommands,
        ActionView::CallApp { command: cmd & 0x7fu8, request: data },
    ]);
}

/// A request for a registered command that fits in an application message
/// goes to the application as it is, and the application's outcome is the
/// reply.
pub proof fn lemma_application_exchange(
    channel: u32,
    command: u8,
    payload: Seq<u8>,
    registered: Seq<u8>,
    outcome: Result<(), AppError>,
    response: Seq<u8>,
    last: u32,
)
    requires
        registered.contains(command),
        payload.len() <= MESSAGE_CAPACITY,
    ensures
        ({
            let events = seq![
                EventView::CommandsListed(registered),
                EventView::AppReturned(outcome, response),
            ];
            let start = StageView::Dispatching { channel, command, payload };
            &&& all_allowed(start, last, events)
            &&& run_exchange(start, last, events) == seq![
                ActionView::CallApp { command, request: payload },
                ActionView::Send(call_reply_spec(channel, command, outcome, response)),
            ]
        }),
{
    let events = seq![
        EventView::CommandsListed(registered),
        EventView::AppReturned(outcome, response),
    ];
    let start = StageView::Dispatching { channel, command, payload };
    let calling = StageView::Calling { channel, command };
    let rest = events.drop_first();
    assert(rest[0] == EventView::AppReturned(outcome, response));
    assert(rest.drop_first() =~= Seq::<EventView>::empty());
    let reply = ActionView::Send(call_reply_spec(channel, command, outcome, response));
    assert(run_exchange(StageView::Done, last, rest.drop_first()) == Seq::<ActionView>::empty());
    assert(all_allowed(StageView::Done, last, rest.drop_first()));
    assert(step_spec(calling, last, rest[0]) == (StageView::Done, last, reply));
    assert(step_spec(start, last, events[0]) == (
        calling,
        last,
        ActionView::CallApp { command, request: payload },
    ));
    assert(run_exchange(calling, last, rest) =~= seq![reply]);
    assert(all_allowed(calling, last, rest));
    assert(run_exchange(start, last, events) =~= seq![
        ActionView::CallApp { command, request: payload },
        reply,
    ]);
}

/// Every step keeps the exchange consistent, and every reply it sends fits in
/// one framing, provided the application's responses fit in an application
/// message.
pub proof fn lemma_replies_fit_framing(s: StageView, last: u32, e: EventView)
    requires
        stage_wf(s),
        event_allowed(s, e),
        e matches EventView::AppReturned(_, resp) ==> resp.len() <= MESSAGE_CAPACITY,
    ensures
        stage_wf(step_spec(s, last, e).0),
        step_spec(s, last, e).2 matches ActionView::Send(r) ==> r.payload.len() <= MAX_FRAMED_LEN,
{
    crate::server::lemma_messages_fit_framing();
    reveal(routed);
    match s {
        StageView::Start => {
            if let EventView::PacketRead(p) = e {
                lemma_start_wf(p);
                if let Ok(a) = start_assembly(p) {
                    if assembly_complete(a) {
                        lemma_complete_fits(a);
                    }
                }
            }
        },
        StageView::Assembling(a) => {
            if let EventView::PacketRead(p) = e {
                lemma_accept_wf(a, p);
                if let Ok(b) = accept_packet(a, p) {
                    if assembly_complete(b) {
                        lemma_complete_fits(b);
                    }
                }
            }
        },
        _ => {},
    }
}

/// What happened after an action.
pub enum Event {
    /// A whole packet was read.
    PacketRead(Vec<u8>),
    /// Reading a packet failed.
    ReadFailed,
    /// The application registered these command codes.
    CommandsListed(Vec<u8>),
    /// The application returned, having written its response.
    AppReturned(Result<(), AppError>, Message),
}

impl View for Event {
    type V = EventView;

    open spec fn view(&self) -> EventView {
        match self {
            Event::PacketRead(p) => EventView::PacketRead(p@),
            Event::ReadFailed => EventView::ReadFailed,
            Event::CommandsListed(c) => EventView::CommandsListed(c@),
            Event::AppReturned(o, m) => EventView::AppReturned(*o, message_bytes(*m)),
        }
    }
}

/// What to do next.
pub enum Action {
    /// Read the next packet.
    ReadPacket,
    /// Ask the application which commands it registered.
    ListCommands,
    /// Call the application with this command and request.
    CallApp { command: u8, request: Message },
    /// Send this reply; the exchange is over.
    Send(Response),
    /// The peer went away before a request began; the exchange is over.
    Disconnected,
    /// Reading a continuation packet failed; the exchange is over.
    ContinuationReadFailed,
    /// The request was refused; the exchange is over.
    Failed(ServerError),
}

impl View for Action {
    type V = ActionView;

    open spec fn view(&self) -> ActionView {
        match self {
            Action::ReadPacket => ActionView::ReadPacket,
            Action::ListCommands => ActionView::ListCommands,
            Action::CallApp { command, request } => ActionView::CallApp {
                command: *command,
                request: message_bytes(*request),
            },
            Action::Send(r) => ActionView::Send(r@),
            Action::Disconnected => ActionView::Disconnected,
            Action::ContinuationReadFailed => ActionView::ContinuationReadFailed,
            Action::Failed(e) => ActionView::Failed(*e),
        }
    }
}

enum Stage {
    Start,
    Assembling(Reassembly),
    Dispatching { channel: u32, command: u8, payload: Vec<u8> },
    Calling { channel: u32, command: u8 },
    Done,
}

/// One request/reply exchange.
pub struct Exchange {
    stage: Stage,
}

impl View for Exchange {
    type V = StageView;

    closed spec fn view(&self) -> StageView {
        match self.stage {
            Stage::Start => StageView::Start,
            Stage::Assembling(r) => StageView::Assembling(r@),
            Stage::Dispatching { channel, command, payload } => StageView::Dispatching {
                channel,
                command,
                payload: payload@,
            },
            Stage::Calling { channel, command } => StageView::Calling { channel, command },
            Stage::Done => StageView::Done,
        }
    }
}

/// Route a complete message.
fn route(r: Reassembly, next_channel: &mut u32) -> (out: (Stage, Action))
    requires
        r.wf(),
        assembly_complete(r@),
    ensures
        ((Exchange { stage: out.0 })@, *final(next_channel), out.1@) == routed(
            r@,
            *old(next_channel),
        ),
        stage_wf((Exchange { stage: out.0 })@),
{
    proof {
        lemma_complete_fits(r@);
        reveal(routed);
    }
    let (channel, command, payload) = r.into_parts();
    match route_message(next_channel, channel, command, &payload) {
        Ok(Route::Reply(resp)) => (Stage::Done, Action::Send(resp)),
        Ok(Route::Dispatch) => (
            Stage::Dispatching { channel, command, payload },
            Action::ListCommands,
        ),
        Err(e) => (Stage::Done, Action::Failed(e)),
    }
}

/// Continue after a packet was added to `r`.
fn after_packet_exec(r: Reassembly, next_channel: &mut u32) -> (out: (Stage, Action))
    requires
        r.wf(),
    ensures
        ((Exchange { stage: out.0 })@, *final(next_channel), out.1@) == after_packet(
            r@,
            *old(next_channel),
        ),
        stage_wf((Exchange { stage: out.0 })@),
{
    if r.is_complete() {
        route(r, next_channel)
    } else {
        (Stage::Assembling(r), Action::ReadPacket)
    }
}

impl Exchange {
    /// The exchange is consistent.
    pub closed spec fn wf(&self) -> bool {
        stage_wf(self@)
    }

    /// A fresh exchange, waiting for the first packet of a request.
    pub fn new() -> (x: Exchange)
        ensures
            x@ == StageView::Start,
            x.wf(),
    {
        Exchange { stage: Stage::Start }
    }

    /// Whether handing `pkt` to the exchange now would step the sequence
    /// counter past its last value; such a packet is not allowed.
    pub fn packet_exhausts_sequence(&self, pkt: &[u8]) -> (b: bool)
        requires
            pkt@.len() == PACKET_SIZE,
        ensures
            b == (self@ matches StageView::Assembling(a) && sequence_exhausted(a, pkt@)),
    {
        match &self.stage {
            Stage::Assembling(r) => r.sequence_exhausted(pkt),
            _ => false,
        }
    }

    /// Feed what happened after the last action; returns the next action.
    /// `next_channel` is the last channel identifier the connection allocated.
    pub fn step(&mut self, next_channel: &mut u32, event: Event) -> (action: Action)
        requires
            old(self).wf(),
            event_allowed(old(self)@, event@),
        ensures
            final(self).wf(),
            (final(self)@, *final(next_channel), action@) == step_spec(
                old(self)@,
                *old(next_channel),
                event@,
            ),
    {
        let mut stage = Stage::Done;
        std::mem::swap(&mut stage, &mut self.stage);
        let (next, action) = match stage {
            Stage::Start => match event {
                Event::PacketRead(p) => {
                    proof {
                        lemma_start_wf(p@);
                    }
                    match Reassembly::start(&p) {
                        Ok(r) => after_packet_exec(r, next_channel),
                        Err(e) => (Stage::Done, Action::Failed(e)),
                    }
                },
                _ => (Stage::Done, Action::Disconnected),
            },
            Stage::Assembling(mut r) => match event {
                Event::PacketRead(p) => {
                    proof {
                        lemma_accept_wf(r@, p@);
                    }
                    match r.accept(&p) {
                        Ok(()) => after_packet_exec(r, next_channel),
                        Err(e) => (Stage::Done, Action::Failed(e)),
                    }
                },
                _ => (Stage::Done, Action::ContinuationReadFailed),
            },
            Stage::Dispatching { channel, command, payload } => match event {
                Event::CommandsListed(codes) => match plan_dispatch(
                    channel,
                    command,
                    &codes,
                    &payload,
                ) {
                    Ok(Dispatch::Reply(resp)) => (Stage::Done, Action::Send(resp)),
                    Ok(Dispatch::Call(request)) => (
                        Stage::Calling { channel, command },
                        Action::CallApp { command, request },
                    ),
                    Err(e) => (Stage::Done, Action::Failed(e)),
                },
                _ => (Stage::Done, Action::Disconnected),
            },
            Stage::Calling { channel, command } => match event {
                Event::AppReturned(outcome, response) => (
                    Stage::Done,
                    Action::Send(call_reply(channel, command, outcome, &response)),
                ),
                _ => (Stage::Done, Action::Disconnected),
            },
            Stage::Done => (Stage::Done, Action::Disconnected),
        };
        self.stage = next;
        action
    }
}

} // verus!
