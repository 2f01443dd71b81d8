//! Chunked framing of messages.
//!
//! On the wire a message is a run of chunks, each a big-endian 16-bit length
//! and that many bytes, closed by a chunk of length zero.

use vstd::prelude::*;

verus! {

/// The longest chunk that a 16-bit length can announce.
pub const MAX_CHUNK: usize = 65535;

/// `n` as two bytes, the high one first.
pub open spec fn be16(n: nat) -> Seq<u8> {
    seq![(n / 256) as u8, (n % 256) as u8]
}

/// The number that two bytes announce, the high one first.
pub open spec fn chunk_length(high: u8, low: u8) -> nat {
    (high * 256 + low) as nat
}

/// `payload` behind a single chunk header, then the closing chunk. The header
/// holds the length modulo 2^16.
pub open spec fn single_chunk(payload: Seq<u8>) -> Seq<u8> {
    be16(payload.len() % 65536) + payload + be16(0)
}

/// `payload` cut into chunks of at most `MAX_CHUNK` bytes, then the closing
/// chunk.
pub open spec fn frame(payload: Seq<u8>) -> Seq<u8>
    decreases payload.len(),
{
    if payload.len() == 0 {
        be16(0)
    } else if payload.len() <= MAX_CHUNK {
        be16(payload.len()) + payload + be16(0)
    } else {
        be16(MAX_CHUNK as nat) + payload.take(MAX_CHUNK as int) + frame(
            payload.skip(MAX_CHUNK as int),
        )
    }
}

/// The first message on the wire and the number of bytes it takes up, or
/// `None` while its closing chunk has not arrived.
pub open spec fn first_message(wire: Seq<u8>) -> Option<(Seq<u8>, nat)>
    decreases wire.len(),
{
    if wire.len() < 2 {
        None
    } else {
        let n = chunk_length(wire[0], wire[1]);
        if n == 0 {
            Some((Seq::empty(), 2))
        } else if wire.len() < 2 + n {
            None
        } else {
            match first_message(wire.skip(2 + n as int)) {
                None => None,
                Some((body, used)) => Some((wire.subrange(2, 2 + n as int) + body, 2 + n + used)),
            }
        }
    }
}

fn push_all(out: &mut Vec<u8>, bytes: &[u8], from: usize, to: usize)
    requires
        from <= to <= bytes@.len(),
    ensures
        final(out)@ == old(out)@ + bytes@.subrange(from as int, to as int),
{
    let mut i: usize = from;
    while i < to
        invariant
            from <= i <= to <= bytes@.len(),
            out@ == old(out)@ + bytes@.subrange(from as int, i as int),
        decreases to - i,
    {
        out.push(bytes[i]);
        i += 1;
        assert(bytes@.subrange(from as int, i as int) == bytes@.subrange(
            from as int,
            i - 1,
        ).push(bytes@[i - 1]));
    }
}

fn push_length(out: &mut Vec<u8>, n: u16)
    ensures
        final(out)@ == old(out)@ + be16(n as nat),
{
    out.push((n / 256) as u8);
    out.push((n % 256) as u8);
}

/// Frames `payload` as one chunk and the closing chunk. A payload that is
/// empty or longer than `MAX_CHUNK` cannot be read back from it.
pub fn write_chunked_message(payload: &[u8]) -> (wire: Vec<u8>)
    ensures
        wire@ == single_chunk(payload@),
{
    let mut wire: Vec<u8> = Vec::new();
    let header: u16 = (payload.len() % 65536) as u16;
    push_length(&mut wire, header);
    push_all(&mut wire, payload, 0, payload.len());
    push_length(&mut wire, 0);
    wire
}

/// Frames `payload` in as many chunks as its length needs.
pub fn write_message(payload: &[u8]) -> (wire: Vec<u8>)
    ensures
        wire@ == frame(payload@),
{
    let mut wire: Vec<u8> = Vec::new();
    let mut at: usize = 0;
    assert(payload@.skip(0) == payload@);
    assert(wire@ + frame(payload@) == frame(payload@));
    while payload.len() - at > MAX_CHUNK
        invariant
            at <= payload@.len(),
            wire@ + frame(payload@.skip(at as int)) == frame(payload@),
        decreases payload@.len() - at,
    {
        let ghost rest = payload@.skip(at as int);
        let ghost before = wire@;
        push_length(&mut wire, 65535);
        push_all(&mut wire, payload, at, at + MAX_CHUNK);
        at += MAX_CHUNK;
        assert(payload@.subrange(at - MAX_CHUNK as int, at as int) == rest.take(MAX_CHUNK as int));
        assert(payload@.skip(at as int) == rest.skip(MAX_CHUNK as int));
        assert(wire@ + frame(payload@.skip(at as int)) == before + frame(rest));
    }
    let ghost rest = payload@.skip(at as int);
    let ghost before = wire@;
    if at < payload.len() {
        let header: u16 = (payload.len() - at) as u16;
        push_length(&mut wire, header);
        push_all(&mut wire, payload, at, payload.len());
        assert(payload@.subrange(at as int, payload@.len() as int) == rest);
    }
    push_length(&mut wire, 0);
    assert(wire@ == before + frame(rest));
    wire
}

/// Takes the first message off the wire: its body and the number of bytes to
/// drop. `None` means that more bytes are needed.
pub fn read_chunked_message(wire: &[u8]) -> (message: Option<(Vec<u8>, usize)>)
    ensures
        match message {
            Some((body, used)) => first_message(wire@) == Some((body@, used as nat))
                && used <= wire@.len(),
            None => first_message(wire@) is None,
        },
{
    let mut body: Vec<u8> = Vec::new();
    let mut at: usize = 0;
    assert(wire@.skip(0) == wire@);
    loop
        invariant
            at <= wire@.len(),
            first_message(wire@) == match first_message(wire@.skip(at as int)) {
                None => None,
                Some((tail, used)) => Some((body@ + tail, at as nat + used)),
            },
        decreases wire@.len() - at,
    {
        let ghost rest = wire@.skip(at as int);
        if wire.len() - at < 2 {
            return None;
        }
        let n: usize = wire[at] as usize * 256 + wire[at + 1] as usize;
        assert(n == chunk_length(rest[0], rest[1]));
        if n == 0 {
            assert(body@ + Seq::<u8>::empty() == body@);
            return Some((body, at + 2));
        }
        if wire.len() - at - 2 < n {
            return None;
        }
        let ghost before = body@;
        push_all(&mut body, wire, at + 2, at + 2 + n);
        at = at + 2 + n;
        proof {
            assert(wire@.skip(at as int) == rest.skip(2 + n as int));
            assert(wire@.subrange(at - n, at as int) == rest.subrange(2, 2 + n as int));
            if let Some((tail, used)) = first_message(wire@.skip(at as int)) {
                assert(before + (rest.subrange(2, 2 + n as int) + tail) == body@ + tail);
            }
        }
    }
}

/// A whole chunk at the front goes before whatever message the rest holds.
proof fn lemma_leading_chunk(chunk: Seq<u8>, rest: Seq<u8>)
    requires
        0 < chunk.len() <= MAX_CHUNK,
    ensures
        first_message(be16(chunk.len()) + chunk + rest) == match first_message(rest) {
            None => None,
            Some((body, used)) => Some((chunk + body, 2 + chunk.len() + used)),
        },
{
    let n = chunk.len();
    let wire = be16(n) + chunk + rest;
    assert(wire[0] == n / 256 && wire[1] == n % 256);
    assert(chunk_length(wire[0], wire[1]) == n);
    assert(wire.skip(2 + n as int) == rest);
    assert(wire.subrange(2, 2 + n as int) == chunk);
}

proof fn lemma_regroup(a: Seq<u8>, b: Seq<u8>, c: Seq<u8>, d: Seq<u8>)
    ensures
        (a + b + c) + d == a + b + (c + d),
        (a + b + c).len() == a.len() + b.len() + c.len(),
{
}

/// A non-empty frame is its first chunk and the frame of what is left.
proof fn lemma_frame_step(payload: Seq<u8>, n: int)
    requires
        0 < payload.len(),
        n == if payload.len() <= MAX_CHUNK {
            payload.len() as int
        } else {
            MAX_CHUNK as int
        },
    ensures
        frame(payload) == be16(n as nat) + payload.take(n) + frame(payload.skip(n)),
        payload == payload.take(n) + payload.skip(n),
{
    if payload.len() <= MAX_CHUNK {
        assert(payload.take(n) == payload);
        assert(payload.skip(n) == Seq::<u8>::empty());
    }
}

/// What `write_message` puts on the wire, `read_chunked_message` gives back,
/// whatever follows it.
pub proof fn law_read_gives_back_what_was_written(payload: Seq<u8>, rest: Seq<u8>)
    ensures
        first_message(frame(payload) + rest) == Some((payload, frame(payload).len())),
    decreases payload.len(),
{
    if payload.len() == 0 {
        assert(payload == Seq::<u8>::empty());
        assert((be16(0) + rest)[0] == 0 && (be16(0) + rest)[1] == 0);
    } else {
        let n = if payload.len() <= MAX_CHUNK {
            payload.len() as int
        } else {
            MAX_CHUNK as int
        };
        let tail = payload.skip(n);
        lemma_frame_step(payload, n);
        law_read_gives_back_what_was_written(tail, rest);
        lemma_leading_chunk(payload.take(n), frame(tail) + rest);
        lemma_regroup(be16(n as nat), payload.take(n), frame(tail), rest);
    }
}

/// A message cut short anywhere is never taken for a whole one.
pub proof fn law_cut_message_is_incomplete(payload: Seq<u8>, cut: int)
    requires
        0 <= cut < frame(payload).len(),
    ensures
        first_message(frame(payload).take(cut)) is None,
    decreases payload.len(),
{
    let wire = frame(payload).take(cut);
    if cut >= 2 && payload.len() > 0 {
        let n = if payload.len() <= MAX_CHUNK {
            payload.len() as int
        } else {
            MAX_CHUNK as int
        };
        let tail = payload.skip(n);
        lemma_frame_step(payload, n);
        if cut >= 2 + n {
            law_cut_message_is_incomplete(tail, cut - 2 - n);
            lemma_leading_chunk(payload.take(n), frame(tail).take(cut - 2 - n));
            assert(wire == be16(n as nat) + payload.take(n) + frame(tail).take(cut - 2 - n));
        } else {
            assert(wire[0] == n / 256 && wire[1] == n % 256);
            assert(chunk_length(wire[0], wire[1]) == n);
        }
    }
}

/// A payload of one to `MAX_CHUNK` bytes is framed alike by
/// `write_chunked_message` and by `write_message`, and so read back from either.
pub proof fn law_single_chunk_is_read_back(payload: Seq<u8>, rest: Seq<u8>)
    requires
        0 < payload.len() <= MAX_CHUNK,
    ensures
        single_chunk(payload) == frame(payload),
        first_message(single_chunk(payload) + rest) == Some((payload, single_chunk(payload).len())),
{
    law_read_gives_back_what_was_written(payload, rest);
}

/// What is on the wire for a payload: its first bytes, as many as a 16-bit
/// length can announce, behind their length, the high byte first; then the same
/// for the bytes that are left; and two zero bytes at the end.
pub proof fn law_frame_announces_each_chunk(payload: Seq<u8>)
    ensures
        payload.len() == 0 ==> frame(payload) == seq![0u8, 0u8],
        0 < payload.len() <= 65535 ==> {
            &&& frame(payload).len() == payload.len() + 4
            &&& frame(payload)[0] * 256 + frame(payload)[1] == payload.len()
            &&& frame(payload).skip(2) == payload + seq![0u8, 0u8]
        },
        payload.len() > 65535 ==> {
            &&& frame(payload).take(2) == seq![255u8, 255u8]
            &&& frame(payload).skip(2) == payload.take(65535) + frame(payload.skip(65535))
        },
{
    if payload.len() == 0 {
        assert(frame(payload) == seq![0u8, 0u8]);
    } else if payload.len() <= 65535 {
        assert(frame(payload).skip(2) == payload + seq![0u8, 0u8]);
    } else {
        assert(frame(payload).take(2) == seq![255u8, 255u8]);
        assert(frame(payload).skip(2) == payload.take(65535) + frame(payload.skip(65535)));
    }
}

/// A message is read off the wire chunk by chunk. Two zero bytes end it. A
/// length, the high byte first, and that many bytes go before the message that
/// the rest holds. While bytes are missing there is no message.
pub proof fn law_chunks_are_read_by_their_length(
    high: u8,
    low: u8,
    chunk: Seq<u8>,
    rest: Seq<u8>,
    wire: Seq<u8>,
)
    ensures
        first_message(seq![0u8, 0u8] + rest) == Some((Seq::<u8>::empty(), 2nat)),
        chunk.len() > 0 && chunk.len() == high * 256 + low ==> first_message(
            seq![high, low] + chunk + rest,
        ) == match first_message(rest) {
            None => None,
            Some((body, used)) => Some((chunk + body, 2 + chunk.len() + used)),
        },
        wire.len() < 2 ==> first_message(wire) is None,
        chunk.len() < high * 256 + low ==> first_message(seq![high, low] + chunk) is None,
{
    let ending = seq![0u8, 0u8] + rest;
    assert(ending[0] == 0 && ending[1] == 0);
    let whole = seq![high, low] + chunk + rest;
    assert(whole[0] == high && whole[1] == low);
    if chunk.len() > 0 && chunk.len() == high * 256 + low {
        assert(whole.skip(2 + chunk.len() as int) == rest);
        assert(whole.subrange(2, 2 + chunk.len() as int) == chunk);
    }
    let cut = seq![high, low] + chunk;
    assert(cut[0] == high && cut[1] == low);
}

/// A payload that is framed in one chunk stands between its length modulo 2^16
/// and two zero bytes.
pub proof fn law_single_chunk_is_the_payload_behind_its_length(payload: Seq<u8>)
    ensures
        single_chunk(payload).len() == payload.len() + 4,
        single_chunk(payload)[0] * 256 + single_chunk(payload)[1] == payload.len() % 65536,
        single_chunk(payload).skip(2) == payload + seq![0u8, 0u8],
{
    assert(single_chunk(payload).skip(2) == payload + seq![0u8, 0u8]);
}

} // verus!
