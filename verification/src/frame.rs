use vstd::prelude::*;

verus! {

/// Every packet on the wire is preceded by its length, two bytes, least
/// significant first.
pub const HEADER_LEN: usize = 2;

/// The length header written before a payload of `len` bytes (the length is
/// kept modulo 2^16, as a 16-bit field can hold no more).
pub open spec fn length_header(len: nat) -> Seq<u8> {
    seq![(len % 256) as u8, ((len / 256) % 256) as u8]
}

/// The bytes sent for `payload`: its length header, then the payload.
pub open spec fn framed(payload: Seq<u8>) -> Seq<u8> {
    length_header(payload.len()) + payload
}

/// The whole frame length (header included) announced by a two-byte header.
pub open spec fn announced_frame_len(header: Seq<u8>) -> nat {
    (header[0] + 256 * header[1] + 2) as nat
}

/// What a look at the first bytes waiting on a connection shows.
pub enum HeaderStatus {
    /// Nothing is left to read: the peer closed the connection.
    Closed,
    /// The header has not fully arrived yet.
    Pending,
    /// The header says the whole frame is this many bytes long.
    Frame(usize),
}

/// What a look at the bytes of a frame waiting on a connection shows.
pub enum BodyStatus {
    /// Nothing is left to read: the peer closed the connection.
    Closed,
    /// The frame has not fully arrived yet.
    Pending,
    /// The frame is complete; this is its payload.
    Complete(Vec<u8>),
}

/// Puts the length header in front of an encoded packet.
pub fn frame_packet(payload: &[u8]) -> (frame: Vec<u8>)
    requires
        payload@.len() + HEADER_LEN <= usize::MAX,
    ensures
        frame@ == framed(payload@),
{
    let len = payload.len();
    let mut frame: Vec<u8> = Vec::with_capacity(len + HEADER_LEN);
    frame.push((len % 256) as u8);
    frame.push(((len / 256) % 256) as u8);
    let mut i: usize = 0;
    while i < len
        invariant
            len == payload@.len(),
            i <= len,
            frame@ == length_header(len as nat) + payload@.take(i as int),
        decreases len - i,
    {
        frame.push(payload[i]);
        i += 1;
        assert(payload@.take(i as int) =~= payload@.take(i - 1).push(payload@[i - 1]));
    }
    assert(payload@.take(len as int) =~= payload@);
    frame
}

/// Reads what a peek of at most two bytes returned: no byte means the peer
/// closed, one byte that the header is still on its way, two bytes the
/// length of the whole frame.
pub fn decode_header(peeked: &[u8]) -> (status: HeaderStatus)
    requires
        peeked@.len() <= HEADER_LEN,
    ensures
        peeked@.len() == 0 <==> status is Closed,
        peeked@.len() == 1 <==> status is Pending,
        peeked@.len() == 2 <==> status is Frame,
        status matches HeaderStatus::Frame(total) ==> total == announced_frame_len(peeked@),
{
    if peeked.len() == 2 {
        HeaderStatus::Frame(peeked[0] as usize + 256 * (peeked[1] as usize) + HEADER_LEN)
    } else if peeked.len() == 0 {
        HeaderStatus::Closed
    } else {
        HeaderStatus::Pending
    }
}

/// Reads what a peek of at most `total` bytes (a whole frame, header
/// included) returned: no byte means the peer closed, fewer than `total`
/// that the frame is still on its way, all of them the payload.
pub fn decode_body(peeked: &[u8], total: usize) -> (status: BodyStatus)
    requires
        HEADER_LEN <= total,
        peeked@.len() <= total,
    ensures
        peeked@.len() == 0 <==> status is Closed,
        0 < peeked@.len() < total <==> status is Pending,
        peeked@.len() == total <==> status is Complete,
        status matches BodyStatus::Complete(payload) ==> payload@ == peeked@.skip(HEADER_LEN as int),
{
    if peeked.len() == total {
        let mut payload: Vec<u8> = Vec::with_capacity(total - HEADER_LEN);
        let mut i: usize = HEADER_LEN;
        while i < total
            invariant
                total == peeked@.len(),
                HEADER_LEN <= i <= total,
                payload@ == peeked@.subrange(HEADER_LEN as int, i as int),
            decreases total - i,
        {
            payload.push(peeked[i]);
            i += 1;
            assert(peeked@.subrange(HEADER_LEN as int, i as int) =~= peeked@.subrange(
                HEADER_LEN as int,
                i - 1,
            ).push(peeked@[i - 1]));
        }
        assert(peeked@.subrange(HEADER_LEN as int, total as int) =~= peeked@.skip(HEADER_LEN as int));
        BodyStatus::Complete(payload)
    } else if peeked.len() == 0 {
        BodyStatus::Closed
    } else {
        BodyStatus::Pending
    }
}

/// Law: what the reader takes off the wire is what the writer put on it.
/// For a payload of at most 65535 bytes, the header of its frame announces
/// the frame's exact length, and a complete frame gives the payload back.
pub proof fn lemma_frame_round_trip(payload: Seq<u8>)
    requires
        payload.len() < 0x10000,
    ensures
        framed(payload).take(HEADER_LEN as int).len() == HEADER_LEN,
        announced_frame_len(framed(payload).take(HEADER_LEN as int)) == framed(payload).len(),
        framed(payload).skip(HEADER_LEN as int) == payload,
{
    let f = framed(payload);
    let n = payload.len();
    assert(f[0] == (n % 256) as u8);
    assert(f[1] == ((n / 256) % 256) as u8);
    assert(n / 256 < 256);
    assert(f.skip(2) =~= payload);
}

} // verus!
