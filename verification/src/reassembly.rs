//! Reassembly of a CTAPHID message from its packets, as the simulator reads
//! them from the connection one by one.

use vstd::prelude::*;
use crate::error::ServerError;
use crate::frame::{
    channel_bytes, channel_of, cont_chunk_len, cont_count, cont_offset, cont_packet, first_chunk_len,
    frame, init_header, init_packet, lemma_channel_roundtrip, lemma_cont_count, lemma_cont_offset,
    lemma_cont_count_bound, message_packets, packet_channel, CONT_DATA_SIZE, CONT_HEADER_SIZE,
    INIT_DATA_SIZE, INIT_HEADER_SIZE, MAX_FRAMED_LEN, PACKET_SIZE,
};

verus! {

/// A message being reassembled, in mathematical terms.
pub struct Assembly {
    /// Channel of the initialization packet.
    pub channel: u32,
    /// Command of the initialization packet, without the initialization bit.
    pub command: u8,
    /// Payload length announced by the initialization packet.
    pub expected: nat,
    /// Payload bytes received so far.
    pub received: Seq<u8>,
    /// Sequence number the next continuation packet must carry.
    pub seq: nat,
}

/// Payload length announced by an initialization packet.
pub open spec fn announced_len(pkt: Seq<u8>) -> nat {
    (pkt[5] as nat) * 256 + pkt[6] as nat
}

/// What the first packet of a message starts: an assembly holding its first
/// payload bytes, or an error when it is not an initialization packet.
pub open spec fn start_assembly(pkt: Seq<u8>) -> Result<Assembly, ServerError> {
    if pkt[4] & 0x80u8 == 0 {
        Err(ServerError::UnexpectedContinuation)
    } else {
        let len = announced_len(pkt);
        Ok(
            Assembly {
                channel: channel_of(pkt),
                command: pkt[4] & 0x7fu8,
                expected: len,
                received: pkt.subrange(
                    INIT_HEADER_SIZE as int,
                    INIT_HEADER_SIZE + first_chunk_len(len),
                ),
                seq: 0,
            },
        )
    }
}

/// The whole payload has arrived.
pub open spec fn assembly_complete(a: Assembly) -> bool {
    a.received.len() >= a.expected
}

/// Payload bytes the next continuation packet contributes.
pub open spec fn next_chunk_len(a: Assembly) -> nat {
    if a.expected - a.received.len() <= CONT_DATA_SIZE {
        (a.expected - a.received.len()) as nat
    } else {
        CONT_DATA_SIZE as nat
    }
}

/// What a continuation packet does to an incomplete assembly.
pub open spec fn accept_packet(a: Assembly, pkt: Seq<u8>) -> Result<Assembly, ServerError> {
    if channel_of(pkt) != a.channel {
        Err(ServerError::ChannelMismatch)
    } else if pkt[4] as nat != a.seq {
        Err(ServerError::BadSequence { expected: a.seq as u8, got: pkt[4] })
    } else {
        Ok(
            Assembly {
                channel: a.channel,
                command: a.command,
                expected: a.expected,
                received: a.received + pkt.subrange(
                    CONT_HEADER_SIZE as int,
                    CONT_HEADER_SIZE + next_chunk_len(a),
                ),
                seq: a.seq + 1,
            },
        )
    }
}

/// Accepting the packet would step the one-byte sequence counter past its
/// last value.
pub open spec fn sequence_exhausted(a: Assembly, pkt: Seq<u8>) -> bool {
    a.seq >= 255 && accept_packet(a, pkt) is Ok
}

/// A consistent assembly: it holds the payload of the initialization packet
/// and of `seq` continuation packets, never more than announced, and the
/// announced length fits in two bytes.
pub open spec fn assembly_wf(a: Assembly) -> bool {
    &&& a.expected <= 0xffff
    &&& a.seq <= 255
    &&& a.received.len() == if a.expected <= cont_offset(a.seq) {
        a.expected
    } else {
        cont_offset(a.seq)
    }
}

/// A first packet starts a consistent assembly.
pub proof fn lemma_start_wf(pkt: Seq<u8>)
    requires
        pkt.len() == PACKET_SIZE,
    ensures
        start_assembly(pkt) matches Ok(a) ==> assembly_wf(a),
{
    lemma_cont_offset(0);
}

/// Accepting a continuation packet keeps an assembly consistent.
pub proof fn lemma_accept_wf(a: Assembly, pkt: Seq<u8>)
    requires
        assembly_wf(a),
        !assembly_complete(a),
        !sequence_exhausted(a, pkt),
        pkt.len() == PACKET_SIZE,
    ensures
        accept_packet(a, pkt) matches Ok(b) ==> assembly_wf(b) && b.channel == a.channel
            && b.command == a.command,
{
    lemma_cont_offset(a.seq);
}

/// A complete consistent assembly holds exactly the announced payload, which
/// fits in a framed reply.
pub proof fn lemma_complete_fits(a: Assembly)
    requires
        assembly_wf(a),
        assembly_complete(a),
    ensures
        a.received.len() == a.expected,
        a.received.len() <= MAX_FRAMED_LEN,
{
    lemma_cont_offset(a.seq);
    lemma_cont_offset(255);
}

/// Feed continuation packets to an assembly until it is complete, the packets
/// run out, or one of them is refused.
pub open spec fn reassemble(a: Assembly, pkts: Seq<Seq<u8>>) -> Result<Assembly, ServerError>
    decreases pkts.len(),
{
    if pkts.len() == 0 || assembly_complete(a) {
        Ok(a)
    } else {
        match accept_packet(a, pkts[0]) {
            Ok(b) => reassemble(b, pkts.drop_first()),
            Err(e) => Err(e),
        }
    }
}

/// A message being reassembled.
pub struct Reassembly {
    channel: u32,
    command: u8,
    expected: usize,
    received: Vec<u8>,
    seq: u8,
}

impl View for Reassembly {
    type V = Assembly;

    closed spec fn view(&self) -> Assembly {
        Assembly {
            channel: self.channel,
            command: self.command,
            expected: self.expected as nat,
            received: self.received@,
            seq: self.seq as nat,
        }
    }
}

impl Reassembly {
    /// Internal consistency (see [`assembly_wf`]).
    pub open spec fn wf(&self) -> bool {
        assembly_wf(self@)
    }

    /// Begin a message from its first packet.
    pub fn start(pkt: &[u8]) -> (r: Result<Reassembly, ServerError>)
        requires
            pkt@.len() == PACKET_SIZE,
        ensures
            match r {
                Ok(a) => a.wf() && start_assembly(pkt@) == Ok::<Assembly, ServerError>(a@),
                Err(e) => start_assembly(pkt@) == Err::<Assembly, ServerError>(e),
            },
    {
        let cid = packet_channel(pkt);
        let cmd_byte = pkt[4];
        if cmd_byte & 0x80 == 0 {
            return Err(ServerError::UnexpectedContinuation);
        }
        let cmd = cmd_byte & 0x7F;
        let hi = pkt[5];
        let lo = pkt[6];
        let msg_len = ((hi as usize) << 8usize) | (lo as usize);
        assert(msg_len == (hi as nat) * 256 + lo as nat) by (bit_vector)
            requires
                msg_len == ((hi as usize) << 8usize) | (lo as usize),
        ;
        let first = if msg_len < INIT_DATA_SIZE {
            msg_len
        } else {
            INIT_DATA_SIZE
        };
        let mut data: Vec<u8> = Vec::with_capacity(msg_len);
        let mut j: usize = 0;
        while j < first
            invariant
                pkt@.len() == PACKET_SIZE,
                first <= INIT_DATA_SIZE,
                j <= first,
                data@ == pkt@.subrange(INIT_HEADER_SIZE as int, INIT_HEADER_SIZE + j),
            decreases first - j,
        {
            data.push(pkt[INIT_HEADER_SIZE + j]);
            j += 1;
            assert(data@ =~= pkt@.subrange(INIT_HEADER_SIZE as int, INIT_HEADER_SIZE + j));
        }
        Ok(Reassembly { channel: cid, command: cmd, expected: msg_len, received: data, seq: 0 })
    }

    /// Whether the whole payload has arrived.
    pub fn is_complete(&self) -> (b: bool)
        ensures
            b == assembly_complete(self@),
    {
        self.received.len() >= self.expected
    }

    /// Whether accepting `pkt` would step the sequence counter past its last
    /// value; the caller must not hand such a packet to [`Self::accept`].
    pub fn sequence_exhausted(&self, pkt: &[u8]) -> (b: bool)
        requires
            pkt@.len() == PACKET_SIZE,
        ensures
            b == sequence_exhausted(self@, pkt@),
    {
        self.seq == 255 && packet_channel(pkt) == self.channel && pkt[4] == 255
    }

    /// Add a continuation packet to an incomplete message. A packet from
    /// another channel, or out of sequence, is refused and changes nothing.
    pub fn accept(&mut self, pkt: &[u8]) -> (r: Result<(), ServerError>)
        requires
            old(self).wf(),
            pkt@.len() == PACKET_SIZE,
            !assembly_complete(old(self)@),
            !sequence_exhausted(old(self)@, pkt@),
        ensures
            final(self).wf(),
            match r {
                Ok(()) => accept_packet(old(self)@, pkt@) == Ok::<Assembly, ServerError>(
                    final(self)@,
                ),
                Err(e) => accept_packet(old(self)@, pkt@) == Err::<Assembly, ServerError>(e)
                    && final(self)@ == old(self)@,
            },
    {
        let c_cid = packet_channel(pkt);
        if c_cid != self.channel {
            return Err(ServerError::ChannelMismatch);
        }
        if pkt[4] != self.seq {
            return Err(ServerError::BadSequence { expected: self.seq, got: pkt[4] });
        }
        let remaining = self.expected - self.received.len();
        let chunk = if remaining < CONT_DATA_SIZE {
            remaining
        } else {
            CONT_DATA_SIZE
        };
        let ghost before = self.received@;
        let ghost a0 = self@;
        assert(accept_packet(a0, pkt@) is Ok);
        let mut j: usize = 0;
        while j < chunk
            invariant
                pkt@.len() == PACKET_SIZE,
                chunk <= CONT_DATA_SIZE,
                j <= chunk,
                self.received@ == before + pkt@.subrange(
                    CONT_HEADER_SIZE as int,
                    CONT_HEADER_SIZE + j,
                ),
                before.len() + chunk <= self.expected,
                self.expected <= 0xffff,
                self.channel == a0.channel,
                self.command == a0.command,
                self.expected == a0.expected,
                self.seq == a0.seq,
                self.seq < 255,
                before == a0.received,
                chunk == next_chunk_len(a0),
                before.len() == if a0.expected <= cont_offset(a0.seq) {
                    a0.expected
                } else {
                    cont_offset(a0.seq)
                },
            decreases chunk - j,
        {
            self.received.push(pkt[CONT_HEADER_SIZE + j]);
            j += 1;
            assert(self.received@ =~= before + pkt@.subrange(
                CONT_HEADER_SIZE as int,
                CONT_HEADER_SIZE + j,
            ));
        }
        self.seq = self.seq + 1;
        Ok(())
    }

    /// Give up the reassembled message: its channel, command and payload. A
    /// complete payload always fits in a framed reply.
    pub fn into_parts(self) -> (parts: (u32, u8, Vec<u8>))
        requires
            self.wf(),
        ensures
            assembly_complete(self@) ==> parts.2@.len() <= MAX_FRAMED_LEN,
            parts.0 == self@.channel,
            parts.1 == self@.command,
            parts.2@ == self@.received,
    {
        proof {
            if assembly_complete(self@) {
                lemma_cont_offset(self.seq as nat);
                assert(self.expected <= cont_offset(self.seq as nat));
                assert(cont_offset(self.seq as nat) <= MAX_FRAMED_LEN);
            }
        }
        (self.channel, self.command, self.received)
    }
}

/// The assembly a framed message reaches after its initialization packet and
/// `k` of its continuation packets.
pub open spec fn framed_progress(cid: u32, cmd: u8, data: Seq<u8>, k: nat) -> Assembly {
    Assembly {
        channel: cid,
        command: cmd & 0x7fu8,
        expected: data.len(),
        received: data.take(
            if data.len() <= cont_offset(k) {
                data.len() as int
            } else {
                cont_offset(k) as int
            },
        ),
        seq: k,
    }
}

proof fn lemma_channel_of_frame(cid: u32, tail: Seq<u8>, body: Seq<u8>)
    ensures
        channel_of(frame(channel_bytes(cid) + tail, body)) == cid,
{
    let q = channel_bytes(cid) + tail;
    let p = frame(q, body);
    lemma_channel_roundtrip(cid, tail);
    assert(p[0] == q[0] && p[1] == q[1] && p[2] == q[2] && p[3] == q[3]);
}

/// The initialization packet of a framed message starts its assembly.
pub proof fn lemma_start_framed(cid: u32, cmd: u8, data: Seq<u8>)
    requires
        data.len() <= MAX_FRAMED_LEN,
        cmd & 0x80u8 != 0,
    ensures
        start_assembly(init_packet(cid, cmd, data)) == Ok::<Assembly, ServerError>(
            framed_progress(cid, cmd, data, 0),
        ),
{
    let len = data.len();
    let pkt = init_packet(cid, cmd, data);
    let tail = seq![cmd, (len / 256) as u8, (len % 256) as u8];
    assert(init_header(cid, cmd, len) == channel_bytes(cid) + tail);
    lemma_channel_of_frame(cid, tail, data.subrange(0, first_chunk_len(len) as int));
    assert(pkt[4] == cmd);
    assert(pkt[5] as nat == len / 256);
    assert(pkt[6] as nat == len % 256);
    assert(announced_len(pkt) == len);
    let a = start_assembly(pkt).unwrap();
    assert(a.received =~= framed_progress(cid, cmd, data, 0).received);
}

/// Each continuation packet of a framed message advances its assembly by one
/// packet, before completion and without exhausting the sequence counter.
pub proof fn lemma_step_framed(cid: u32, cmd: u8, data: Seq<u8>, k: nat)
    requires
        data.len() <= MAX_FRAMED_LEN,
        k < cont_count(data.len()),
    ensures
        !assembly_complete(framed_progress(cid, cmd, data, k)),
        framed_progress(cid, cmd, data, k).seq < 255,
        accept_packet(framed_progress(cid, cmd, data, k), cont_packet(cid, k, data)) == Ok::<
            Assembly,
            ServerError,
        >(framed_progress(cid, cmd, data, k + 1)),
{
    let len = data.len();
    lemma_cont_count(len, k);
    lemma_cont_count_bound(len);
    let a = framed_progress(cid, cmd, data, k);
    let pkt = cont_packet(cid, k, data);
    let body = data.subrange(cont_offset(k) as int, (cont_offset(k) + cont_chunk_len(len, k)) as int);
    assert(channel_bytes(cid).push(k as u8) == channel_bytes(cid) + seq![k as u8]);
    lemma_channel_of_frame(cid, seq![k as u8], body);
    assert(pkt[4] == k as u8);
    assert(next_chunk_len(a) == cont_chunk_len(len, k));
    let chunk = cont_chunk_len(len, k);
    let off = cont_offset(k);
    lemma_cont_offset(k);
    assert(off + chunk == if len <= cont_offset(k + 1) {
        len
    } else {
        cont_offset(k + 1)
    });
    assert(pkt.subrange(CONT_HEADER_SIZE as int, CONT_HEADER_SIZE + chunk) =~= body);
    assert(a.received =~= data.take(off as int));
    assert(data.take(off as int) + body =~= data.take((off + chunk) as int));
    let b = accept_packet(a, pkt).unwrap();
    assert(b.received =~= framed_progress(cid, cmd, data, k + 1).received);
}

proof fn lemma_feed_framed(cid: u32, cmd: u8, data: Seq<u8>, k: nat)
    requires
        data.len() <= MAX_FRAMED_LEN,
        k <= cont_count(data.len()),
    ensures
        reassemble(
            framed_progress(cid, cmd, data, k),
            message_packets(cid, cmd, data).subrange(k + 1int, cont_count(data.len()) + 1int),
        ) == Ok::<Assembly, ServerError>(framed_progress(cid, cmd, data, cont_count(data.len()))),
    decreases cont_count(data.len()) - k,
{
    let n = cont_count(data.len());
    let pkts = message_packets(cid, cmd, data);
    let rest = pkts.subrange(k + 1int, n + 1int);
    if k < n {
        lemma_step_framed(cid, cmd, data, k);
        assert(rest[0] == cont_packet(cid, k, data));
        assert(rest.drop_first() =~= pkts.subrange(k + 2int, n + 1int));
        lemma_feed_framed(cid, cmd, data, k + 1);
    } else {
        assert(rest.len() == 0);
    }
}

/// Framing round trip: the packets [`crate::frame::send_response`] produces for
/// a message are read back by the reassembly as exactly that message. The
/// initialization packet starts it on the same channel with the same command
/// (without its initialization bit); each continuation packet is accepted in
/// turn, before completion and without exhausting the sequence counter; after
/// the last one the payload is complete and equal to the original.
pub proof fn lemma_framed_message_reassembles(cid: u32, cmd: u8, data: Seq<u8>)
    requires
        data.len() <= MAX_FRAMED_LEN,
        cmd & 0x80u8 != 0,
    ensures
        ({
            let pkts = message_packets(cid, cmd, data);
            let n = cont_count(data.len());
            &&& start_assembly(pkts[0]) == Ok::<Assembly, ServerError>(
                framed_progress(cid, cmd, data, 0),
            )
            &&& forall|k: nat|
                k < n ==> {
                    &&& !assembly_complete(#[trigger] framed_progress(cid, cmd, data, k))
                    &&& framed_progress(cid, cmd, data, k).seq < 255
                    &&& accept_packet(framed_progress(cid, cmd, data, k), pkts[k + 1int]) == Ok::<
                        Assembly,
                        ServerError,
                    >(framed_progress(cid, cmd, data, k + 1))
                }
            &&& assembly_complete(framed_progress(cid, cmd, data, n))
            &&& framed_progress(cid, cmd, data, n).received == data
            &&& reassemble(framed_progress(cid, cmd, data, 0), pkts.drop_first()) == Ok::<
                Assembly,
                ServerError,
            >(framed_progress(cid, cmd, data, n))
        }),
{
    let pkts = message_packets(cid, cmd, data);
    let n = cont_count(data.len());
    lemma_start_framed(cid, cmd, data);
    assert forall|k: nat| k < n implies {
        &&& !assembly_complete(#[trigger] framed_progress(cid, cmd, data, k))
        &&& framed_progress(cid, cmd, data, k).seq < 255
        &&& accept_packet(framed_progress(cid, cmd, data, k), pkts[k + 1int]) == Ok::<
            Assembly,
            ServerError,
        >(framed_progress(cid, cmd, data, k + 1))
    } by {
        lemma_step_framed(cid, cmd, data, k);
    }
    lemma_cont_count(data.len(), n);
    assert(framed_progress(cid, cmd, data, n).received =~= data);
    lemma_feed_framed(cid, cmd, data, 0);
    assert(pkts.drop_first() =~= pkts.subrange(1, n + 1int));
}

} // verus!
