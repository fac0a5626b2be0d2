//! What the simulator answers to a reassembled CTAPHID message.
//!
//! `INIT` and `PING` are answered here. Every other known command goes to the
//! registered application: first the simulator checks that the application
//! registered the command and that the request fits in an application message,
//! then it turns the application's outcome into the reply.

use vstd::prelude::*;
use crate::error::ServerError;
use crate::frame::{
    channel_bytes, channel_of, cont_count, lemma_channel_roundtrip, lemma_cont_count,
    lemma_cont_offset, MAX_FRAMED_LEN,
};

verus! {

/// `PING`: echo the payload.
pub const CTAPHID_PING: u8 = 0x01;
/// `INIT`: allocate a channel.
pub const CTAPHID_INIT: u8 = 0x06;
/// `ERROR`: the reply that reports an error code.
pub const CTAPHID_ERROR: u8 = 0x3F;
/// The initialization bit of a command byte.
pub const TYPE_INIT: u8 = 0x80;
/// Error code: the command is not supported.
pub const ERR_INVALID_CMD: u8 = 0x01;
/// Error code: the length is invalid.
pub const ERR_INVALID_LEN: u8 = 0x03;
/// Error code: any other failure.
pub const ERR_OTHER: u8 = 0x7F;
/// CTAPHID protocol version reported by `INIT`.
pub const PROTOCOL_VERSION: u8 = 2;
/// Capability flags reported by `INIT`: the device speaks CBOR.
pub const CAPABILITY_CBOR: u8 = 0x04;
/// Length of the nonce an `INIT` request carries.
pub const INIT_NONCE_SIZE: usize = 8;
/// Capacity of an application message.
pub const MESSAGE_CAPACITY: usize = 7609;

/// `heapless::Vec`, a vector of fixed capacity; opaque here, its contents are
/// named by [`message_bytes`].
#[verifier::external_type_specification]
#[verifier::external_body]
#[verifier::reject_recursive_types(T)]
pub struct ExHeaplessVec<T, const N: usize>(heapless::Vec<T, N>);

/// An application message: a byte vector of fixed capacity.
pub type Message = heapless::Vec<u8, MESSAGE_CAPACITY>;

/// The bytes an application message holds.
pub uninterp spec fn message_bytes(m: heapless::Vec<u8, MESSAGE_CAPACITY>) -> Seq<u8>;

/// `heapless::Vec::new`: an empty vector.
#[verifier::external_body]
fn empty_message() -> (m: Message)
    ensures
        message_bytes(m) == Seq::<u8>::empty(),
{
    heapless::Vec::new()
}

/// `heapless::Vec::extend_from_slice`: appends the slice when the result fits
/// in the capacity, and otherwise fails and leaves the vector unchanged.
#[verifier::external_body]
fn extend_message(m: &mut Message, bytes: &[u8]) -> (r: Result<(), ()>)
    ensures
        r is Ok <==> message_bytes(*old(m)).len() + bytes@.len() <= MESSAGE_CAPACITY,
        r is Ok ==> message_bytes(*final(m)) == message_bytes(*old(m)) + bytes@,
        r is Err ==> message_bytes(*final(m)) == message_bytes(*old(m)),
{
    m.extend_from_slice(bytes)
}

/// `heapless::Vec::as_slice`: the bytes the vector holds, never more than its
/// capacity.
#[verifier::external_body]
fn message_as_slice(m: &Message) -> (s: &[u8])
    ensures
        s@ == message_bytes(*m),
        s@.len() <= MESSAGE_CAPACITY,
{
    m.as_slice()
}

/// Command codes that `ctaphid_dispatch::app::Command::try_from` accepts.
pub open spec fn is_known_command(code: u8) -> bool {
    ||| code == 0x01
    ||| code == 0x03
    ||| code == 0x06
    ||| code == 0x3f
    ||| code == 0x08
    ||| code == 0x04
    ||| code == 0x10
    ||| code == 0x11
    ||| code == 0x12
    ||| code == 0x3b
    ||| 0x40 <= code && code <= 0x7f
}

/// `ctaphid_dispatch::app::Command::try_from`: succeeds exactly for the
/// command codes of [`is_known_command`].
#[verifier::external_body]
fn command_is_known(code: u8) -> (known: bool)
    ensures
        known == is_known_command(code),
{
    ctaphid_dispatch::app::Command::try_from(code).is_ok()
}

/// A reply to send on a channel.
pub struct Response {
    pub channel: u32,
    pub command: u8,
    pub payload: Vec<u8>,
}

/// A reply, in mathematical terms.
pub struct Reply {
    pub channel: u32,
    pub command: u8,
    pub payload: Seq<u8>,
}

impl View for Response {
    type V = Reply;

    open spec fn view(&self) -> Reply {
        Reply { channel: self.channel, command: self.command, payload: self.payload@ }
    }
}

/// What to do with a reassembled message.
pub enum Route {
    /// Answer at once.
    Reply(Response),
    /// Hand the message to the application that registered its command.
    Dispatch,
}

/// What becomes of a reassembled message, in mathematical terms.
pub enum Routing {
    Reply(Reply),
    Dispatch,
    Refused(ServerError),
}

/// The channel an `INIT` allocates after `last`: the next identifier, never 0.
pub open spec fn next_channel_id(last: u32) -> u32 {
    if last == 0xffff_ffff {
        1
    } else {
        (last + 1) as u32
    }
}

/// `INIT` allocates the channel after the last one (wrapping past the
/// largest identifier to 1), remembers it, and reports exactly that channel,
/// big endian, in bytes 8 to 11 of its 17-byte reply, after the request's
/// nonce, followed by the protocol version and the capability flags.
pub proof fn lemma_init_reports_allocated_channel(last: u32, channel: u32, nonce: Seq<u8>)
    ensures
        ({
            let (next, routing) = route_spec(last, channel, CTAPHID_INIT, nonce);
            &&& next != 0
            &&& last < 0xffff_ffff ==> next == last + 1
            &&& last == 0xffff_ffff ==> next == 1
            &&& routing matches Routing::Reply(r) && {
                &&& r.channel == channel
                &&& r.command == 0x86u8
                &&& r.payload.len() == 17
                &&& channel_of(r.payload.subrange(8, 12)) == next
                &&& nonce.len() >= 8 ==> r.payload.subrange(0, 8) == nonce.subrange(0, 8)
                &&& nonce.len() < 8 ==> forall|i: int| 0 <= i < 8 ==> #[trigger] r.payload[i] == 0u8
                &&& r.payload[12] == PROTOCOL_VERSION
                &&& r.payload[16] == CAPABILITY_CBOR
            }
        }),
{
    let (next, routing) = route_spec(last, channel, CTAPHID_INIT, nonce);
    assert(0x06u8 | 0x80u8 == 0x86u8) by (bit_vector);
    let r = Reply {
        channel,
        command: CTAPHID_INIT | TYPE_INIT,
        payload: init_reply_payload(nonce, next),
    };
    assert(routing == Routing::Reply(r));
    lemma_channel_roundtrip(next, Seq::<u8>::empty());
    assert(r.payload.subrange(8, 12) =~= channel_bytes(next) + Seq::<u8>::empty());
    if nonce.len() >= 8 {
        assert(r.payload.subrange(0, 8) =~= nonce.subrange(0, 8));
    }
}

/// A newly allocated channel is never the reserved channel 0.
pub proof fn lemma_allocated_channel_nonzero(last: u32)
    ensures
        next_channel_id(last) != 0,
{
}

/// Payload of the reply to `INIT`: the request's nonce (zeros when the request
/// is shorter than a nonce), the new channel, the protocol version, three zero
/// version bytes and the capability flags.
pub open spec fn init_reply_payload(request: Seq<u8>, cid: u32) -> Seq<u8> {
    (if request.len() >= INIT_NONCE_SIZE {
        request.take(INIT_NONCE_SIZE as int)
    } else {
        Seq::new(INIT_NONCE_SIZE as nat, |i: int| 0u8)
    }) + channel_bytes(cid) + seq![PROTOCOL_VERSION, 0u8, 0u8, 0u8, CAPABILITY_CBOR]
}

/// How a message is routed, and the last allocated channel afterwards:
/// `INIT` allocates the next channel and reports it, `PING` is echoed, other
/// known commands go to the application, and unknown commands are refused.
pub open spec fn route_spec(last: u32, channel: u32, command: u8, payload: Seq<u8>) -> (
    u32,
    Routing,
) {
    if command == CTAPHID_INIT {
        let cid = next_channel_id(last);
        (
            cid,
            Routing::Reply(
                Reply {
                    channel,
                    command: CTAPHID_INIT | TYPE_INIT,
                    payload: init_reply_payload(payload, cid),
                },
            ),
        )
    } else if command == CTAPHID_PING {
        (last, Routing::Reply(Reply { channel, command: CTAPHID_PING | TYPE_INIT, payload }))
    } else if is_known_command(command) {
        (last, Routing::Dispatch)
    } else {
        (last, Routing::Refused(ServerError::UnknownCommand(command)))
    }
}

/// The outcome of [`route_message`] in mathematical terms.
pub open spec fn routing_of(r: Result<Route, ServerError>) -> Routing {
    match r {
        Ok(Route::Reply(resp)) => Routing::Reply(resp@),
        Ok(Route::Dispatch) => Routing::Dispatch,
        Err(e) => Routing::Refused(e),
    }
}

/// Decide what to do with the message `command`/`payload` received on
/// `channel`; `next_channel` is the last channel identifier this connection
/// allocated.
pub fn route_message(next_channel: &mut u32, channel: u32, command: u8, payload: &[u8]) -> (r:
    Result<Route, ServerError>)
    ensures
        (*final(next_channel), routing_of(r)) == route_spec(
            *old(next_channel),
            channel,
            command,
            payload@,
        ),
{
    if command == CTAPHID_INIT {
        let bumped = (*next_channel).wrapping_add(1);
        let cid = if bumped < 1 {
            1
        } else {
            bumped
        };
        *next_channel = cid;
        let ghost nonce = if payload@.len() >= INIT_NONCE_SIZE {
            payload@.take(INIT_NONCE_SIZE as int)
        } else {
            Seq::new(INIT_NONCE_SIZE as nat, |i: int| 0u8)
        };
        let mut resp: Vec<u8> = Vec::new();
        let mut i: usize = 0;
        while i < INIT_NONCE_SIZE
            invariant
                i <= INIT_NONCE_SIZE,
                nonce == (if payload@.len() >= INIT_NONCE_SIZE {
                    payload@.take(INIT_NONCE_SIZE as int)
                } else {
                    Seq::new(INIT_NONCE_SIZE as nat, |i: int| 0u8)
                }),
                resp@ == nonce.take(i as int),
            decreases INIT_NONCE_SIZE - i,
        {
            let b = if payload.len() >= INIT_NONCE_SIZE {
                payload[i]
            } else {
                0u8
            };
            resp.push(b);
            i += 1;
            assert(resp@ =~= nonce.take(i as int));
        }
        resp.push((cid >> 24u32) as u8);
        resp.push((cid >> 16u32) as u8);
        resp.push((cid >> 8u32) as u8);
        resp.push(cid as u8);
        resp.push(PROTOCOL_VERSION);
        resp.push(0);
        resp.push(0);
        resp.push(0);
        resp.push(CAPABILITY_CBOR);
        assert(resp@ =~= init_reply_payload(payload@, cid));
        return Ok(
            Route::Reply(Response { channel, command: CTAPHID_INIT | TYPE_INIT, payload: resp }),
        );
    }
    if command == CTAPHID_PING {
        let mut echo: Vec<u8> = Vec::new();
        echo.extend_from_slice(payload);
        assert(echo@ =~= payload@);
        return Ok(
            Route::Reply(Response { channel, command: CTAPHID_PING | TYPE_INIT, payload: echo }),
        );
    }
    if !command_is_known(command) {
        return Err(ServerError::UnknownCommand(command));
    }
    Ok(Route::Dispatch)
}

/// How a message for the application proceeds.
pub enum Dispatch {
    /// Answer at once: the application did not register the command.
    Reply(Response),
    /// Call the application with this request.
    Call(Message),
}

/// How a message for the application proceeds, in mathematical terms.
pub enum Planning {
    Reply(Reply),
    Call(Seq<u8>),
    Refused(ServerError),
}

/// An unregistered command is answered with an invalid-command error, a
/// request longer than an application message is refused, and any other
/// request goes to the application as it is.
pub open spec fn plan_spec(channel: u32, command: u8, registered: Seq<u8>, payload: Seq<u8>) -> Planning {
    if !registered.contains(command) {
        Planning::Reply(
            Reply { channel, command: CTAPHID_ERROR | TYPE_INIT, payload: seq![ERR_INVALID_CMD] },
        )
    } else if payload.len() > MESSAGE_CAPACITY {
        Planning::Refused(ServerError::RequestTooLarge)
    } else {
        Planning::Call(payload)
    }
}

/// The outcome of [`plan_dispatch`] in mathematical terms.
pub open spec fn planning_of(r: Result<Dispatch, ServerError>) -> Planning {
    match r {
        Ok(Dispatch::Reply(resp)) => Planning::Reply(resp@),
        Ok(Dispatch::Call(m)) => Planning::Call(message_bytes(m)),
        Err(e) => Planning::Refused(e),
    }
}

/// Whether `command` is among the command codes the application registered.
pub fn is_registered(command: u8, registered: &[u8]) -> (b: bool)
    ensures
        b == registered@.contains(command),
{
    let mut i: usize = 0;
    while i < registered.len()
        invariant
            i <= registered@.len(),
            forall|j: int| 0 <= j < i ==> registered@[j] != command,
        decreases registered@.len() - i,
    {
        if registered[i] == command {
            return true;
        }
        i += 1;
    }
    false
}

/// Check a message for the application before the call: `registered` lists
/// the command codes the application registered (see [`plan_spec`]).
pub fn plan_dispatch(channel: u32, command: u8, registered: &[u8], payload: &[u8]) -> (r: Result<
    Dispatch,
    ServerError,
>)
    ensures
        planning_of(r) == plan_spec(channel, command, registered@, payload@),
{
    if !is_registered(command, registered) {
        let mut err: Vec<u8> = Vec::new();
        err.push(ERR_INVALID_CMD);
        assert(err@ =~= seq![ERR_INVALID_CMD]);
        return Ok(
            Dispatch::Reply(Response { channel, command: CTAPHID_ERROR | TYPE_INIT, payload: err }),
        );
    }
    let mut request = empty_message();
    match extend_message(&mut request, payload) {
        Ok(()) => {
            assert(message_bytes(request) =~= payload@);
            Ok(Dispatch::Call(request))
        },
        Err(()) => Err(ServerError::RequestTooLarge),
    }
}

/// Every application message fits in one framed reply: the largest takes the
/// initialization packet and exactly 128 continuation packets.
pub proof fn lemma_messages_fit_framing()
    ensures
        MESSAGE_CAPACITY <= MAX_FRAMED_LEN,
        cont_count(MESSAGE_CAPACITY as nat) == 128,
{
    lemma_cont_offset(127);
    lemma_cont_offset(128);
    lemma_cont_count(MESSAGE_CAPACITY as nat, 127);
    lemma_cont_count(MESSAGE_CAPACITY as nat, 128);
}

/// How an application call failed.
#[derive(Clone, Copy, Debug, PartialEq, Eq, Structural)]
pub enum AppError {
    NoResponse,
    InvalidCommand,
    InvalidLength,
}

/// The CTAPHID error code that reports an application failure.
pub open spec fn app_error_code(e: AppError) -> u8 {
    match e {
        AppError::InvalidCommand => ERR_INVALID_CMD,
        AppError::InvalidLength => ERR_INVALID_LEN,
        AppError::NoResponse => ERR_OTHER,
    }
}

/// The reply after the application handled `command` with `outcome`, having
/// written `response`: the response on success, otherwise an error reply with
/// the matching code.
pub open spec fn call_reply_spec(
    channel: u32,
    command: u8,
    outcome: Result<(), AppError>,
    response: Seq<u8>,
) -> Reply {
    match outcome {
        Ok(()) => Reply { channel, command: command | TYPE_INIT, payload: response },
        Err(e) => Reply {
            channel,
            command: CTAPHID_ERROR | TYPE_INIT,
            payload: seq![app_error_code(e)],
        },
    }
}

/// A successful application call is answered on the request's channel under
/// the request's own command, marked as an initialization packet, with the
/// whole response the application wrote, byte for byte; a failed call is
/// answered with an `ERROR` reply of exactly one byte, the failure's code.
pub proof fn lemma_call_reply_carries_response(
    channel: u32,
    command: u8,
    outcome: Result<(), AppError>,
    response: Seq<u8>,
)
    ensures
        ({
            let r = call_reply_spec(channel, command, outcome, response);
            &&& r.channel == channel
            &&& r.command & 0x80u8 == 0x80u8
            &&& outcome is Ok ==> r.command & 0x7fu8 == command & 0x7fu8
            &&& outcome is Ok ==> r.payload.len() == response.len()
            &&& outcome is Ok ==> forall|i: int|
                0 <= i < response.len() ==> #[trigger] r.payload[i] == response[i]
            &&& outcome matches Err(e) ==> r.command == 0xbfu8 && r.payload.len() == 1
                && r.payload[0] == app_error_code(e)
            &&& outcome == Err::<(), AppError>(AppError::InvalidCommand) ==> r.payload[0] == 0x01u8
            &&& outcome == Err::<(), AppError>(AppError::InvalidLength) ==> r.payload[0] == 0x03u8
            &&& outcome == Err::<(), AppError>(AppError::NoResponse) ==> r.payload[0] == 0x7fu8
        }),
{
    assert((command | 0x80u8) & 0x80u8 == 0x80u8 && (command | 0x80u8) & 0x7fu8 == command
        & 0x7fu8) by (bit_vector);
    assert(0x3fu8 | 0x80u8 == 0xbfu8 && 0xbfu8 & 0x80u8 == 0x80u8) by (bit_vector);
}

/// The reply to a message after the application handled `command`.
pub fn call_reply(
    channel: u32,
    command: u8,
    outcome: Result<(), AppError>,
    response: &Message,
) -> (r: Response)
    ensures
        r@ == call_reply_spec(channel, command, outcome, message_bytes(*response)),
        r.payload@.len() <= MESSAGE_CAPACITY,
        r.channel == channel,
        outcome is Ok ==> r.command == (command | TYPE_INIT) && r.payload@ == message_bytes(
            *response,
        ),
{
    match outcome {
        Ok(()) => {
            let bytes = message_as_slice(response);
            let mut payload: Vec<u8> = Vec::new();
            payload.extend_from_slice(bytes);
            assert(payload@ =~= message_bytes(*response));
            Response { channel, command: command | TYPE_INIT, payload }
        },
        Err(e) => {
            let code = match e {
                AppError::InvalidCommand => ERR_INVALID_CMD,
                AppError::InvalidLength => ERR_INVALID_LEN,
                AppError::NoResponse => ERR_OTHER,
            };
            let mut payload: Vec<u8> = Vec::new();
            payload.push(code);
            assert(payload@ =~= seq![app_error_code(e)]);
            Response { channel, command: CTAPHID_ERROR | TYPE_INIT, payload }
        },
    }
}

} // verus!
