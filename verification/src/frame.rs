//! CTAPHID framing: a message travels as one initialization packet followed
//! by continuation packets, each exactly [`PACKET_SIZE`] bytes long.
//!
//! Initialization packet: channel (4 bytes, big endian), command byte with the
//! high bit set, payload length (2 bytes, big endian), then up to
//! [`INIT_DATA_SIZE`] payload bytes. Continuation packet: channel, sequence
//! number (0, 1, ...), then up to [`CONT_DATA_SIZE`] payload bytes. Unused
//! bytes are zero.

use vstd::prelude::*;
use crate::error::ServerError;

verus! {

/// Size of every CTAPHID packet.
pub const PACKET_SIZE: usize = 64;
/// Header bytes of an initialization packet.
pub const INIT_HEADER_SIZE: usize = 7;
/// Header bytes of a continuation packet.
pub const CONT_HEADER_SIZE: usize = 5;
/// Payload bytes carried by an initialization packet.
pub const INIT_DATA_SIZE: usize = PACKET_SIZE - INIT_HEADER_SIZE;
/// Payload bytes carried by a continuation packet.
pub const CONT_DATA_SIZE: usize = PACKET_SIZE - CONT_HEADER_SIZE;
/// Largest number of continuation packets whose sequence numbers the one-byte
/// counter can step through.
pub const MAX_CONT_PACKETS: usize = 255;
/// Longest payload that can be framed: the initialization packet plus
/// [`MAX_CONT_PACKETS`] continuation packets.
pub const MAX_FRAMED_LEN: usize = INIT_DATA_SIZE + MAX_CONT_PACKETS * CONT_DATA_SIZE;

/// The four bytes of a channel identifier, most significant first.
pub open spec fn channel_bytes(cid: u32) -> Seq<u8> {
    seq![(cid >> 24u32) as u8, (cid >> 16u32) as u8, (cid >> 8u32) as u8, cid as u8]
}

/// The channel identifier a packet starts with.
pub open spec fn channel_of(pkt: Seq<u8>) -> u32 {
    ((pkt[0] as u32) << 24u32) | ((pkt[1] as u32) << 16u32) | ((pkt[2] as u32) << 8u32) | (
    pkt[3] as u32)
}

/// A packet made of `header`, then `body`, then zero padding.
pub open spec fn frame(header: Seq<u8>, body: Seq<u8>) -> Seq<u8> {
    Seq::new(
        PACKET_SIZE as nat,
        |j: int|
            if j < header.len() {
                header[j]
            } else if j < header.len() + body.len() {
                body[j - header.len()]
            } else {
                0u8
            },
    )
}

/// Payload bytes carried by the initialization packet of a `len`-byte message.
pub open spec fn first_chunk_len(len: nat) -> nat {
    if len <= INIT_DATA_SIZE {
        len
    } else {
        INIT_DATA_SIZE as nat
    }
}

/// Offset in the payload of the data of continuation packet `k`.
pub open spec fn cont_offset(k: nat) -> nat {
    (INIT_DATA_SIZE + k * CONT_DATA_SIZE) as nat
}

/// The data of consecutive continuation packets is [`CONT_DATA_SIZE`] bytes
/// apart, starting right after the initialization packet's data.
pub proof fn lemma_cont_offset(k: nat)
    ensures
        cont_offset(k) == 57 + 59 * k,
        cont_offset(k + 1) == cont_offset(k) + 59,
        MAX_FRAMED_LEN == 57 + 59 * 255,
{
    assert(INIT_DATA_SIZE == 57 && CONT_DATA_SIZE == 59);
    assert(k * CONT_DATA_SIZE == 59 * k) by (nonlinear_arith)
        requires
            CONT_DATA_SIZE == 59,
    ;
}

/// Payload bytes carried by continuation packet `k` of a `len`-byte message.
pub open spec fn cont_chunk_len(len: nat, k: nat) -> nat {
    if len <= cont_offset(k) {
        0
    } else if len - cont_offset(k) <= CONT_DATA_SIZE {
        (len - cont_offset(k)) as nat
    } else {
        CONT_DATA_SIZE as nat
    }
}

/// Number of continuation packets a `len`-byte message needs.
pub open spec fn cont_count(len: nat) -> nat {
    if len <= INIT_DATA_SIZE {
        0
    } else {
        ((len - INIT_DATA_SIZE + CONT_DATA_SIZE - 1) / CONT_DATA_SIZE as int) as nat
    }
}

/// Header of the initialization packet.
pub open spec fn init_header(cid: u32, cmd: u8, len: nat) -> Seq<u8> {
    channel_bytes(cid) + seq![cmd, (len / 256) as u8, (len % 256) as u8]
}

/// The initialization packet of a message.
pub open spec fn init_packet(cid: u32, cmd: u8, data: Seq<u8>) -> Seq<u8> {
    frame(init_header(cid, cmd, data.len()), data.subrange(0, first_chunk_len(data.len()) as int))
}

/// Continuation packet `k` of a message.
pub open spec fn cont_packet(cid: u32, k: nat, data: Seq<u8>) -> Seq<u8> {
    frame(
        channel_bytes(cid).push(k as u8),
        data.subrange(
            cont_offset(k) as int,
            (cont_offset(k) + cont_chunk_len(data.len(), k)) as int,
        ),
    )
}

/// Packet `i` of the framing of a message.
pub open spec fn message_packet(cid: u32, cmd: u8, data: Seq<u8>, i: int) -> Seq<u8> {
    if i == 0 {
        init_packet(cid, cmd, data)
    } else {
        cont_packet(cid, (i - 1) as nat, data)
    }
}

/// All packets that carry a message, in order.
pub open spec fn message_packets(cid: u32, cmd: u8, data: Seq<u8>) -> Seq<Seq<u8>> {
    Seq::new(1 + cont_count(data.len()), |i: int| message_packet(cid, cmd, data, i))
}

/// A continuation packet `k` exists exactly while its data starts inside the
/// payload.
pub proof fn lemma_cont_count(len: nat, k: nat)
    ensures
        k < cont_count(len) <==> cont_offset(k) < len,
{
    if len > INIT_DATA_SIZE {
        let x = len - INIT_DATA_SIZE;
        assert(k < (x + 58) / 59 <==> k * 59 < x) by (nonlinear_arith)
            requires
                x > 0,
        ;
    }
}

/// Messages that can be framed need at most [`MAX_CONT_PACKETS`]
/// continuation packets.
pub proof fn lemma_cont_count_bound(len: nat)
    requires
        len <= MAX_FRAMED_LEN,
    ensures
        cont_count(len) <= MAX_CONT_PACKETS,
{
    if cont_count(len) > MAX_CONT_PACKETS {
        lemma_cont_count(len, MAX_CONT_PACKETS as nat);
    }
}

/// The channel identifier survives being written out and read back.
pub proof fn lemma_channel_roundtrip(cid: u32, rest: Seq<u8>)
    ensures
        channel_of(channel_bytes(cid) + rest) == cid,
{
    let p = channel_bytes(cid) + rest;
    let b0 = (cid >> 24u32) as u8;
    let b1 = (cid >> 16u32) as u8;
    let b2 = (cid >> 8u32) as u8;
    let b3 = cid as u8;
    assert(p[0] == b0 && p[1] == b1 && p[2] == b2 && p[3] == b3);
    assert(((b0 as u32) << 24u32) | ((b1 as u32) << 16u32) | ((b2 as u32) << 8u32) | (b3 as u32)
        == cid) by (bit_vector)
        requires
            b0 == (cid >> 24u32) as u8,
            b1 == (cid >> 16u32) as u8,
            b2 == (cid >> 8u32) as u8,
            b3 == cid as u8,
    ;
}

fn channel_header(cid: u32) -> (h: Vec<u8>)
    ensures
        h@ == channel_bytes(cid),
{
    let mut h: Vec<u8> = Vec::new();
    h.push((cid >> 24u32) as u8);
    h.push((cid >> 16u32) as u8);
    h.push((cid >> 8u32) as u8);
    h.push(cid as u8);
    assert(h@ =~= channel_bytes(cid));
    h
}

/// Read the channel identifier at the start of a packet.
pub fn packet_channel(pkt: &[u8]) -> (cid: u32)
    requires
        pkt@.len() >= 4,
    ensures
        cid == channel_of(pkt@),
{
    ((pkt[0] as u32) << 24u32) | ((pkt[1] as u32) << 16u32) | ((pkt[2] as u32) << 8u32) | (
    pkt[3] as u32)
}

/// Build one packet: `header`, then `count` bytes of `data` from `start`,
/// then zero padding.
fn make_packet(header: &Vec<u8>, data: &[u8], start: usize, count: usize) -> (p: Vec<u8>)
    requires
        header@.len() + count <= PACKET_SIZE,
        start + count <= data@.len(),
    ensures
        p@ == frame(header@, data@.subrange(start as int, start + count)),
{
    let ghost body = data@.subrange(start as int, start + count);
    let hlen = header.len();
    let dlen = data.len();
    let mut p: Vec<u8> = Vec::with_capacity(PACKET_SIZE);
    let mut j: usize = 0;
    while j < PACKET_SIZE
        invariant
            hlen == header@.len(),
            hlen + count <= PACKET_SIZE,
            start + count <= data@.len(),
            dlen == data@.len(),
            body == data@.subrange(start as int, start + count),
            j <= PACKET_SIZE,
            p@.len() == j,
            forall|i: int| 0 <= i < j ==> p@[i] == #[trigger] frame(header@, body)[i],
        decreases PACKET_SIZE - j,
    {
        let b = if j < hlen {
            header[j]
        } else if j < hlen + count {
            data[start + (j - hlen)]
        } else {
            0u8
        };
        p.push(b);
        j += 1;
    }
    assert(p@ =~= frame(header@, body));
    p
}

/// Split a response into CTAPHID packets for channel `cid`, the first of which
/// carries the command byte `cmd`.
pub fn send_response(cid: u32, cmd: u8, data: &[u8]) -> (packets: Vec<Vec<u8>>)
    requires
        data@.len() <= MAX_FRAMED_LEN,
    ensures
        packets@.len() == 1 + cont_count(data@.len()),
        forall|i: int| 0 <= i < packets@.len() ==> (#[trigger] packets@[i])@ == message_packet(
            cid,
            cmd,
            data@,
            i,
        ),
{
    let len = data.len();
    let ghost d = data@;
    proof {
        lemma_cont_count_bound(len as nat);
    }
    let mut packets: Vec<Vec<u8>> = Vec::new();

    let mut header = channel_header(cid);
    header.push(cmd);
    header.push((len / 256) as u8);
    header.push((len % 256) as u8);
    assert(header@ =~= init_header(cid, cmd, len as nat));
    let first = if len < INIT_DATA_SIZE {
        len
    } else {
        INIT_DATA_SIZE
    };
    packets.push(make_packet(&header, data, 0, first));

    let mut offset = first;
    let mut seq: u8 = 0;
    while offset < len
        invariant
            len == d.len(),
            d == data@,
            len <= MAX_FRAMED_LEN,
            cont_count(len as nat) <= MAX_CONT_PACKETS,
            seq <= cont_count(len as nat),
            offset == if len <= cont_offset(seq as nat) {
                len as nat
            } else {
                cont_offset(seq as nat)
            },
            packets@.len() == 1 + seq,
            forall|i: int|
                0 <= i < packets@.len() ==> (#[trigger] packets@[i])@ == message_packet(
                    cid,
                    cmd,
                    d,
                    i,
                ),
        decreases len - offset,
    {
        proof {
            lemma_cont_count(len as nat, seq as nat);
        }
        let chunk = if len - offset < CONT_DATA_SIZE {
            len - offset
        } else {
            CONT_DATA_SIZE
        };
        let mut cheader = channel_header(cid);
        cheader.push(seq);
        let pkt = make_packet(&cheader, data, offset, chunk);
        assert(pkt@ == message_packet(cid, cmd, d, packets@.len() as int));
        packets.push(pkt);
        offset += chunk;
        seq += 1;
    }
    proof {
        lemma_cont_count(len as nat, seq as nat);
    }
    packets
}

} // verus!
