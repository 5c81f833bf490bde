//! How a link is set up, and how messages are told apart on it.
use vstd::prelude::*;
use crate::net::identity::{fingerprint_of, sha256};
use crate::number::{dec, push_dec};
use crate::text::{push_str, to_chars, to_string};
use crate::wire::{be32, be32_at, part, push_be32, push_bytes, read_be32};

verus! {

/// The protocol that both ends name, `castr/1`.
pub const ALPN: [u8; 7] = [0x63, 0x61, 0x73, 0x74, 0x72, 0x2f, 0x31];

/// UDP socket buffer size requested on both ends. A 1080p keyframe leaves the sender
/// as a burst of ~150 datagrams (180 KB); the OS defaults (64 KiB on Windows,
/// 208 KiB on Linux) drop the tail of that burst before QUIC ever sees it.
/// Linux caps the request at `net.core.rmem_max`, so this is best effort.
pub const SOCKET_BUFFER_BYTES: usize = 4_194_304;

/// How many bytes of datagrams are buffered in each direction.
pub const DATAGRAM_BUFFER_BYTES: usize = 4_194_304;

/// How long a silent link is kept, in milliseconds.
pub const IDLE_TIMEOUT_MS: u64 = 3_000;

/// How often a link is kept alive, in milliseconds.
pub const KEEP_ALIVE_MS: u64 = 500;

/// QUIC does not announce a stream to the peer until bytes are written on it, so the
/// sender writes this preamble, `CTRL`, right after opening the control stream and the
/// receiver consumes it before handing the link out.
pub const CONTROL_PREAMBLE: [u8; 4] = [0x43, 0x54, 0x52, 0x4c];

/// Sent by the receiver, `OK`, after it has read the control preamble. The receiver only
/// reaches that point once the QUIC handshake has fully completed with the client
/// certificate verified, so waiting for this ack on the sender side is a deterministic
/// proof of acceptance -- unlike the raw QUIC handshake future, which (per TLS 1.3) can
/// resolve on the client side before the server has verified the client's certificate.
pub const CONTROL_ACK: [u8; 2] = [0x4f, 0x4b];

/// How long a handshaked peer may take to open and use its control stream before it is
/// given up on, in milliseconds. Without this, a peer that completes the QUIC handshake
/// but never opens a control stream (buggy, malicious, or just gone) would stall the
/// accept loop forever. Kept below the idle timeout so a stalled peer can never hold the
/// serial accept loop longer than the idle-timeout budget of the next legitimate sender
/// waiting to connect.
pub const CONTROL_OPEN_TIMEOUT_MS: u64 = 2_000;

/// What a datagram may hold where the link does not say.
pub const DEFAULT_DATAGRAM: usize = 1_200;

/// What a datagram may hold.
pub fn datagram_size(reported: Option<usize>) -> (n: usize)
    ensures
        n == match reported {
            Some(n) => n,
            None => DEFAULT_DATAGRAM,
        },
{
    match reported {
        Some(n) => n,
        None => DEFAULT_DATAGRAM,
    }
}

/// The first `n` of some bytes in decimal, with commas between them.
pub open spec fn listed(b: Seq<u8>, n: int) -> Seq<char>
    decreases n,
{
    if n <= 0 {
        seq![]
    } else if n == 1 {
        dec(b[0] as nat)
    } else {
        listed(b, n - 1) + ", "@ + dec(b[n - 1] as nat)
    }
}

/// Bytes as they are shown in a complaint.
pub open spec fn bytes_text(b: Seq<u8>) -> Seq<char> {
    "["@ + listed(b, b.len() as int) + "]"@
}

fn push_listed(out: &mut Vec<char>, b: &[u8])
    ensures
        final(out)@ == old(out)@ + bytes_text(b@),
{
    push_str(out, "[");
    let ghost start = out@;
    let n: usize = b.len();
    let mut i: usize = 0;
    assert(out@ =~= start + listed(b@, 0));
    while i < n
        invariant
            i <= n,
            n == b@.len(),
            out@ == start + listed(b@, i as int),
        decreases n - i,
    {
        if i > 0 {
            push_str(out, ", ");
        }
        push_dec(out, b[i] as u64);
        i = i + 1;
        assert(out@ =~= start + listed(b@, i as int));
    }
    push_str(out, "]");
    assert(out@ =~= old(out)@ + bytes_text(b@));
}

/// Whether what a control stream begins with is what it should.
pub fn check_preamble(preamble: &[u8; 4]) -> (r: Result<(), String>)
    ensures
        r is Ok <==> preamble@ == CONTROL_PREAMBLE@,
        r matches Err(e) ==> e@ == "bad control preamble "@ + bytes_text(preamble@),
{
    if preamble[0] == CONTROL_PREAMBLE[0] && preamble[1] == CONTROL_PREAMBLE[1] && preamble[2]
        == CONTROL_PREAMBLE[2] && preamble[3] == CONTROL_PREAMBLE[3] {
        assert(preamble@ =~= CONTROL_PREAMBLE@);
        return Ok(());
    }
    let mut v = to_chars("bad control preamble ");
    push_listed(&mut v, preamble);
    Err(to_string(&v))
}

/// Whether a control stream is acknowledged as it should be.
pub fn check_ack(ack: &[u8; 2]) -> (r: Result<(), String>)
    ensures
        r is Ok <==> ack@ == CONTROL_ACK@,
        r matches Err(e) ==> e@ == "unexpected control ack "@ + bytes_text(ack@),
{
    if ack[0] == CONTROL_ACK[0] && ack[1] == CONTROL_ACK[1] {
        assert(ack@ =~= CONTROL_ACK@);
        return Ok(());
    }
    let mut v = to_chars("unexpected control ack ");
    push_listed(&mut v, ack);
    Err(to_string(&v))
}

/// Why a peer cannot be told by its certificate.
#[derive(Debug, Clone, Copy, PartialEq, Eq, Structural)]
pub enum PeerError {
    NoCertificate,
    EmptyChain,
}

impl PeerError {
    pub open spec fn text(self) -> Seq<char> {
        match self {
            PeerError::NoCertificate => "peer presented no certificate"@,
            PeerError::EmptyChain => "empty peer certificate chain"@,
        }
    }

    pub fn message(&self) -> (s: &'static str)
        ensures
            s@ == self.text(),
    {
        match self {
            PeerError::NoCertificate => "peer presented no certificate",
            PeerError::EmptyChain => "empty peer certificate chain",
        }
    }
}

/// What a peer is known by: the fingerprint of the first certificate of the
/// chain it presented.
pub fn peer_fingerprint(chain: Option<&Vec<Vec<u8>>>) -> (r: Result<[u8; 32], PeerError>)
    ensures
        match chain {
            None => r matches Err(e) && e == PeerError::NoCertificate,
            Some(certs) => if certs@.len() == 0 {
                r matches Err(e) && e == PeerError::EmptyChain
            } else {
                r matches Ok(fp) && fp@ == sha256(certs@[0]@)
            },
        },
{
    match chain {
        None => Err(PeerError::NoCertificate),
        Some(certs) => if certs.len() == 0 {
            Err(PeerError::EmptyChain)
        } else {
            Ok(fingerprint_of(certs[0].as_slice()))
        },
    }
}

// ---- messages on a stream ----

/// A message on a stream: its length in four bytes, then the message.
pub open spec fn framed(m: Seq<u8>) -> Seq<u8> {
    be32(m.len() as int) + m
}

/// A message as it goes onto a stream.
pub fn frame(m: &[u8]) -> (v: Vec<u8>)
    requires
        m@.len() <= u32::MAX,
    ensures
        v@ == framed(m@),
{
    let mut v: Vec<u8> = Vec::new();
    push_be32(&mut v, m.len() as u32);
    push_bytes(&mut v, m);
    assert(v@ =~= framed(m@));
    v
}

/// Whether there is a whole message at the beginning of what has been read.
pub open spec fn whole(buf: Seq<u8>) -> bool {
    buf.len() >= 4 && buf.len() - 4 >= be32_at(buf, 0)
}

/// The message at the beginning of what has been read.
pub open spec fn first_message(buf: Seq<u8>) -> Seq<u8> {
    buf.subrange(4, 4 + be32_at(buf, 0))
}

/// What has been read after it.
pub open spec fn after_first(buf: Seq<u8>) -> Seq<u8> {
    buf.skip(4 + be32_at(buf, 0))
}

/// What has been read from a stream and not been handed out yet.
pub struct FrameReader {
    buf: Vec<u8>,
}

impl View for FrameReader {
    type V = Seq<u8>;

    closed spec fn view(&self) -> Seq<u8> {
        self.buf@
    }
}

impl FrameReader {
    pub fn new() -> (r: Self)
        ensures
            r@ == Seq::<u8>::empty(),
    {
        FrameReader { buf: Vec::new() }
    }

    /// Takes in what was read.
    pub fn push(&mut self, chunk: &[u8])
        ensures
            final(self)@ == old(self)@ + chunk@,
    {
        push_bytes(&mut self.buf, chunk);
    }

    /// The next message, once it is there as a whole.
    pub fn next_message(&mut self) -> (r: Option<Vec<u8>>)
        ensures
            r is Some <==> whole(old(self)@),
            r is None ==> final(self)@ == old(self)@,
            r matches Some(m) ==> m@ == first_message(old(self)@) && final(self)@ == after_first(
                old(self)@,
            ),
    {
        let len: usize = self.buf.len();
        if len < 4 {
            return None;
        }
        let n: u32 = read_be32(self.buf.as_slice(), 0);
        if (len - 4) as u64 >= n as u64 {
            let end: usize = 4 + n as usize;
            let ghost buf = self.buf@;
            let mut m: Vec<u8> = Vec::new();
            push_bytes(&mut m, part(self.buf.as_slice(), 4, end));
            assert(m@ =~= first_message(buf));
            let mut rest: Vec<u8> = Vec::new();
            push_bytes(&mut rest, part(self.buf.as_slice(), end, len));
            assert(rest@ =~= after_first(buf));
            self.buf = rest;
            Some(m)
        } else {
            None
        }
    }
}

// ---- laws ----

/// A message that was put on a stream is what comes off it, whatever follows.
pub proof fn law_messages_read_back(m: Seq<u8>, rest: Seq<u8>)
    requires
        m.len() <= u32::MAX,
    ensures
        whole(framed(m) + rest),
        first_message(framed(m) + rest) == m,
        after_first(framed(m) + rest) == rest,
{
    let buf = framed(m) + rest;
    assert(buf.subrange(0, 4) =~= be32(m.len() as int));
    assert(be32_at(buf, 0) == m.len()) by {
        assert(buf[0] == be32(m.len() as int)[0]);
        assert(buf[1] == be32(m.len() as int)[1]);
        assert(buf[2] == be32(m.len() as int)[2]);
        assert(buf[3] == be32(m.len() as int)[3]);
    }
    assert(first_message(buf) =~= m);
    assert(after_first(buf) =~= rest);
}

/// A message that has not arrived as a whole is waited for.
pub proof fn law_a_part_of_a_message_is_waited_for(m: Seq<u8>, k: int)
    requires
        m.len() <= u32::MAX,
        0 <= k < framed(m).len(),
    ensures
        !whole(framed(m).take(k)),
{
    let buf = framed(m).take(k);
    if k >= 4 {
        assert(be32_at(buf, 0) == m.len()) by {
            assert(buf[0] == be32(m.len() as int)[0]);
            assert(buf[1] == be32(m.len() as int)[1]);
            assert(buf[2] == be32(m.len() as int)[2]);
            assert(buf[3] == be32(m.len() as int)[3]);
        }
    }
}

/// A message goes onto a stream behind its length, which takes four bytes, the most
/// weighty first.
pub proof fn law_what_goes_onto_a_stream(m: Seq<u8>)
    requires
        m.len() <= u32::MAX,
    ensures
        framed(m).len() == m.len() + 4,
        framed(m).skip(4) == m,
        0x100_0000 * framed(m)[0] + 0x1_0000 * framed(m)[1] + 0x100 * framed(m)[2] + framed(m)[3]
            == m.len(),
{
    assert(framed(m).skip(4) =~= m);
    crate::wire::law_be32_reads_back(m.len() as int);
}

/// Bytes are shown in decimal between brackets, with a comma and a space between two.
pub proof fn law_how_bytes_are_shown(b: Seq<u8>, x: u8)
    ensures
        bytes_text(seq![x]) == seq!['['] + dec(x as nat) + seq![']'],
        b.len() > 0 ==> bytes_text(b.push(x)) == bytes_text(b).drop_last() + seq![',', ' '] + dec(
            x as nat,
        ) + seq![']'],
{
    reveal_strlit("[");
    reveal_strlit("]");
    reveal_strlit(", ");
    assert("["@ =~= seq!['[']);
    assert("]"@ =~= seq![']']);
    assert(", "@ =~= seq![',', ' ']);
    assert(listed(seq![x], 1) == dec(x as nat));
    if b.len() > 0 {
        let n = b.len() as int;
        lemma_listed(b, x, n);
        assert(listed(b.push(x), n + 1) == listed(b, n) + ", "@ + dec(x as nat));
        assert(bytes_text(b).drop_last() =~= "["@ + listed(b, n));
        assert(bytes_text(b.push(x)) =~= bytes_text(b).drop_last() + seq![',', ' '] + dec(x as nat)
            + seq![']']);
    }
}

proof fn lemma_listed(b: Seq<u8>, x: u8, n: int)
    requires
        n <= b.len(),
    ensures
        listed(b.push(x), n) == listed(b, n),
    decreases n,
{
    if n > 1 {
        lemma_listed(b, x, n - 1);
    }
}

/// A stream begins with the letters `CTRL`, which are answered with `OK`. A link is
/// kept alive more often than it may be silent, and a peer that opens no stream is
/// given up on before a silent link would be.
pub proof fn law_how_a_link_begins()
    ensures
        CONTROL_PREAMBLE@ == seq!['C' as u8, 'T' as u8, 'R' as u8, 'L' as u8],
        CONTROL_ACK@ == seq!['O' as u8, 'K' as u8],
        2 * KEEP_ALIVE_MS < CONTROL_OPEN_TIMEOUT_MS < IDLE_TIMEOUT_MS,
        DEFAULT_DATAGRAM == 1200,
{
    assert(CONTROL_PREAMBLE@ =~= seq!['C' as u8, 'T' as u8, 'R' as u8, 'L' as u8]);
    assert(CONTROL_ACK@ =~= seq!['O' as u8, 'K' as u8]);
}

} // verus!
