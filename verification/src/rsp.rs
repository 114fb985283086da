//! Framing of GDB remote serial protocol packets: `$<payload>#<checksum>`, the checksum being the
//! byte sum of the payload modulo 256 in two hexadecimal digits, and `}` escaping the byte after it
//! (XOR 0x20) in replies.
use vstd::prelude::*;

verus! {

/// The sum of the bytes of `s`.
pub open spec fn byte_sum(s: Seq<u8>) -> nat
    decreases s.len(),
{
    if s.len() == 0 {
        0
    } else {
        byte_sum(s.drop_last()) + s.last() as nat
    }
}

/// The packet checksum of `s`: its byte sum modulo 256.
pub open spec fn packet_checksum(s: Seq<u8>) -> u8 {
    (byte_sum(s) % 256) as u8
}

/// The byte sum of `payload`, wrapping at 256.
pub fn checksum(payload: &[u8]) -> (r: u8)
    ensures
        r == packet_checksum(payload@),
{
    let mut sum: u8 = 0;
    let mut i: usize = 0;
    while i < payload.len()
        invariant
            i <= payload.len(),
            sum == packet_checksum(payload@.take(i as int)),
        decreases payload.len() - i,
    {
        proof {
            assert(payload@.take(i + 1).drop_last() =~= payload@.take(i as int));
        }
        sum = sum.wrapping_add(payload[i]);
        proof {
            let s0 = byte_sum(payload@.take(i as int));
            assert(byte_sum(payload@.take(i + 1)) == s0 + payload@[i as int]);
            assert(((s0 % 256) + payload@[i as int]) % 256 == (s0 + payload@[i as int]) % 256)
                by (nonlinear_arith);
        }
        i = i + 1;
    }
    proof {
        assert(payload@.take(payload.len() as int) =~= payload@);
    }
    sum
}

/// The lower-case hexadecimal digit of `d` (`d < 16`).
pub open spec fn hex_digit_byte(d: nat) -> u8 {
    if d < 10 {
        (48 + d) as u8
    } else {
        (87 + d) as u8
    }
}

/// The wire form of `payload`: `$`, the payload, `#`, then its checksum as two lower-case
/// hexadecimal digits.
pub open spec fn framed(payload: Seq<u8>) -> Seq<u8> {
    let c = packet_checksum(payload) as nat;
    seq![36u8] + payload + seq![35u8, hex_digit_byte(c / 16), hex_digit_byte(c % 16)]
}

fn hex_digit(d: u8) -> (r: u8)
    requires
        d < 16,
    ensures
        r == hex_digit_byte(d as nat),
{
    if d < 10 {
        48 + d
    } else {
        87 + d
    }
}

/// Frames `payload` for sending (see [`framed`]).
pub fn frame(payload: &[u8]) -> (r: Vec<u8>)
    ensures
        r@ == framed(payload@),
{
    let mut out: Vec<u8> = Vec::new();
    out.push(36u8);
    let mut i: usize = 0;
    while i < payload.len()
        invariant
            i <= payload.len(),
            out@ == seq![36u8] + payload@.take(i as int),
        decreases payload.len() - i,
    {
        out.push(payload[i]);
        proof {
            assert(payload@.take(i + 1) =~= payload@.take(i as int).push(payload@[i as int]));
        }
        i = i + 1;
    }
    let c = checksum(payload);
    out.push(35u8);
    out.push(hex_digit(c / 16));
    out.push(hex_digit(c % 16));
    proof {
        assert(payload@.take(payload.len() as int) =~= payload@);
        assert(out@ =~= framed(payload@));
    }
    out
}

/// The value of the hexadecimal digit `b`, in either case.
pub open spec fn hex_value(b: u8) -> Option<nat> {
    if 48 <= b <= 57 {
        Some((b - 48) as nat)
    } else if 97 <= b <= 102 {
        Some((b - 87) as nat)
    } else if 65 <= b <= 70 {
        Some((b - 55) as nat)
    } else {
        None
    }
}

/// What the two checksum characters `hi`, `lo` read as, the way `u8::from_str_radix(_, 16)`
/// reads them: two hexadecimal digits, or `+` and one digit.
pub open spec fn checksum_field(hi: u8, lo: u8) -> Option<u8> {
    match (hex_value(hi), hex_value(lo)) {
        (Some(a), Some(b)) => Some((16 * a + b) as u8),
        (None, Some(b)) => if hi == 43 {
            Some(b as u8)
        } else {
            None
        },
        _ => None,
    }
}

fn hex_of(b: u8) -> (r: Option<u8>)
    ensures
        match hex_value(b) {
            Some(v) => r == Some(v as u8),
            None => r is None,
        },
{
    if 48 <= b && b <= 57 {
        Some(b - 48)
    } else if 97 <= b && b <= 102 {
        Some(b - 87)
    } else if 65 <= b && b <= 70 {
        Some(b - 55)
    } else {
        None
    }
}

fn read_checksum_field(hi: u8, lo: u8) -> (r: Option<u8>)
    ensures
        r == checksum_field(hi, lo),
{
    match (hex_of(hi), hex_of(lo)) {
        (Some(a), Some(b)) => Some(16 * a + b),
        (None, Some(b)) => if hi == 43u8 {
            Some(b)
        } else {
            None
        },
        _ => None,
    }
}

/// `raw` with every `}` that has a byte after it replaced, together with that byte, by the byte
/// XOR 0x20.
pub open spec fn unescaped(raw: Seq<u8>) -> Seq<u8>
    decreases raw.len(),
{
    if raw.len() == 0 {
        Seq::empty()
    } else if raw[0] == 125u8 && raw.len() >= 2 {
        seq![raw[1] ^ 0x20u8] + unescaped(raw.skip(2))
    } else {
        seq![raw[0]] + unescaped(raw.skip(1))
    }
}

/// Decodes the escapes of `buf[from..to]` (see [`unescaped`]).
pub fn unescape(buf: &[u8], from: usize, to: usize) -> (r: Vec<u8>)
    requires
        from <= to <= buf.len(),
    ensures
        r@ == unescaped(buf@.subrange(from as int, to as int)),
{
    let ghost raw = buf@.subrange(from as int, to as int);
    let mut out: Vec<u8> = Vec::new();
    let mut i = from;
    proof {
        assert(raw.skip(0) =~= raw);
    }
    while i < to
        invariant
            from <= i <= to <= buf.len(),
            raw == buf@.subrange(from as int, to as int),
            unescaped(raw) == out@ + unescaped(raw.skip(i - from)),
        decreases to - i,
    {
        let ghost rest = raw.skip(i - from);
        if buf[i] == 125u8 && i + 1 < to {
            out.push(buf[i + 1] ^ 0x20);
            proof {
                assert(rest.skip(2) =~= raw.skip(i - from + 2));
                assert(rest[1] == buf@[i + 1]);
            }
            i = i + 2;
        } else {
            out.push(buf[i]);
            proof {
                assert(rest.skip(1) =~= raw.skip(i - from + 1));
            }
            i = i + 1;
        }
    }
    proof {
        assert(raw.skip(to - from).len() == 0);
    }
    out
}

/// The first position at or after `from` that holds byte `b`.
pub open spec fn first_byte_from(s: Seq<u8>, b: u8, from: int) -> Option<int>
    decreases s.len() - from,
{
    if from < 0 || from >= s.len() {
        None
    } else if s[from] == b {
        Some(from)
    } else {
        first_byte_from(s, b, from + 1)
    }
}

proof fn lemma_first_byte_from(s: Seq<u8>, b: u8, from: int)
    requires
        0 <= from,
    ensures
        first_byte_from(s, b, from) matches Some(i) ==> from <= i < s.len() && s[i] == b
            && forall|k: int| from <= k < i ==> s[k] != b,
        first_byte_from(s, b, from) is None ==> forall|k: int| from <= k < s.len() ==> s[k] != b,
    decreases s.len() - from,
{
    if from < s.len() && s[from] != b {
        lemma_first_byte_from(s, b, from + 1);
    }
}

/// The result of looking for a packet at the front of received bytes.
pub enum PacketScan {
    /// The bytes hold no complete packet yet.
    Incomplete,
    /// A packet whose checksum is wrong; its `consumed` leading bytes are used up.
    BadChecksum { consumed: usize },
    /// A packet; its `consumed` leading bytes are used up and its data, unescaped, is `payload`.
    Packet { consumed: usize, payload: Vec<u8> },
}

/// What the received bytes `buf` hold at their front: bytes up to the first `$` are skipped, the
/// data runs to the next `#`, and the two bytes after it give the checksum of the raw data.
/// `(0, _, _)` when the packet is not complete, else `(1, consumed, _)` for a wrong checksum and
/// `(2, consumed, payload)` for a packet.
pub open spec fn scanned(buf: Seq<u8>) -> (int, int, Seq<u8>) {
    match first_byte_from(buf, 36u8, 0) {
        None => (0, 0, Seq::empty()),
        Some(s) => match first_byte_from(buf, 35u8, s + 1) {
            None => (0, 0, Seq::empty()),
            Some(h) => if h + 2 >= buf.len() {
                (0, 0, Seq::empty())
            } else {
                let raw = buf.subrange(s + 1, h);
                if checksum_field(buf[h + 1], buf[h + 2]) == Some(packet_checksum(raw)) {
                    (2, h + 3, unescaped(raw))
                } else {
                    (1, h + 3, Seq::empty())
                }
            },
        },
    }
}

/// The view of a [`PacketScan`], in the form of [`scanned`].
pub open spec fn scan_view(p: PacketScan) -> (int, int, Seq<u8>) {
    match p {
        PacketScan::Incomplete => (0, 0, Seq::empty()),
        PacketScan::BadChecksum { consumed } => (1, consumed as int, Seq::empty()),
        PacketScan::Packet { consumed, payload } => (2, consumed as int, payload@),
    }
}

fn find_byte(buf: &[u8], b: u8, from: usize) -> (r: Option<usize>)
    requires
        from <= buf.len(),
    ensures
        match first_byte_from(buf@, b, from as int) {
            Some(i) => r == Some(i as usize),
            None => r is None,
        },
{
    let mut i = from;
    while i < buf.len()
        invariant
            from <= i <= buf.len(),
            first_byte_from(buf@, b, from as int) == first_byte_from(buf@, b, i as int),
        decreases buf.len() - i,
    {
        if buf[i] == b {
            return Some(i);
        }
        i = i + 1;
    }
    None
}

/// Looks for a packet at the front of the received bytes `buf` (see [`scanned`]).
pub fn scan_packet(buf: &[u8]) -> (r: PacketScan)
    ensures
        scan_view(r) == scanned(buf@),
{
    proof {
        lemma_first_byte_from(buf@, 36u8, 0);
    }
    let s = match find_byte(buf, 36u8, 0) {
        Some(s) => s,
        None => return PacketScan::Incomplete,
    };
    assert(first_byte_from(buf@, 36u8, 0) == Some(s as int));
    assert(s < buf.len());
    proof {
        lemma_first_byte_from(buf@, 35u8, s + 1);
    }
    let h = match find_byte(buf, 35u8, s + 1) {
        Some(h) => h,
        None => return PacketScan::Incomplete,
    };
    assert(first_byte_from(buf@, 35u8, s + 1) == Some(h as int));
    assert(h < buf.len());
    if buf.len() - h <= 2 {
        return PacketScan::Incomplete;
    }
    let expected = read_checksum_field(buf[h + 1], buf[h + 2]);
    let raw_sum = checksum(slice_range(buf, s + 1, h).as_slice());
    if expected == Some(raw_sum) {
        let payload = unescape(buf, s + 1, h);
        PacketScan::Packet { consumed: h + 3, payload }
    } else {
        PacketScan::BadChecksum { consumed: h + 3 }
    }
}

/// A copy of `buf[from..to]`.
fn slice_range(buf: &[u8], from: usize, to: usize) -> (r: Vec<u8>)
    requires
        from <= to <= buf.len(),
    ensures
        r@ == buf@.subrange(from as int, to as int),
{
    let mut r: Vec<u8> = Vec::new();
    let mut i = from;
    while i < to
        invariant
            from <= i <= to <= buf.len(),
            r@ == buf@.subrange(from as int, i as int),
        decreases to - i,
    {
        r.push(buf[i]);
        proof {
            assert(buf@.subrange(from as int, i + 1) =~= buf@.subrange(from as int, i as int).push(
                buf@[i as int],
            ));
        }
        i = i + 1;
    }
    r
}

/// Whether a packet may be waiting in the received bytes: whether they hold a `$`.
pub fn packet_pending(buf: &[u8]) -> (b: bool)
    ensures
        b == exists|i: int| 0 <= i < buf.len() && buf@[i] == 36u8,
{
    proof {
        lemma_first_byte_from(buf@, 36u8, 0);
    }
    find_byte(buf, 36u8, 0).is_some()
}

/// How many bytes a sender reads while waiting for the acknowledgement of a packet.
pub const ACK_ATTEMPTS: usize = 8;

/// What a byte read after sending a packet means.
#[derive(Debug, PartialEq, Eq)]
pub enum AckReply {
    /// `+`: the packet arrived.
    Acked,
    /// `-`: the packet must be sent again.
    Resend,
    /// `$`: the reply has begun (the stub does not acknowledge); the byte belongs to it.
    ReplyStarted,
    /// Anything else, which is skipped.
    Ignored,
}

/// Classifies a byte read while waiting for an acknowledgement.
pub fn ack_reply(b: u8) -> (r: AckReply)
    ensures
        r == (if b == 43u8 {
            AckReply::Acked
        } else if b == 45u8 {
            AckReply::Resend
        } else if b == 36u8 {
            AckReply::ReplyStarted
        } else {
            AckReply::Ignored
        }),
{
    if b == 43u8 {
        AckReply::Acked
    } else if b == 45u8 {
        AckReply::Resend
    } else if b == 36u8 {
        AckReply::ReplyStarted
    } else {
        AckReply::Ignored
    }
}

/// Where waiting for an acknowledgement stands after a byte.
#[derive(Debug, PartialEq, Eq)]
pub enum AckOutcome {
    /// The packet was acknowledged.
    Acknowledged,
    /// The reply began without an acknowledgement; the byte read is the reply's first and must
    /// be kept for reading it.
    ReplyBegun,
    /// Another byte is to be read.
    KeepWaiting,
    /// The attempts are used up: the packet was not acknowledged.
    NotAcknowledged,
}

/// What to do after reading a byte while waiting for a packet's acknowledgement.
#[derive(Debug, PartialEq, Eq)]
pub struct AckStep {
    /// Whether the packet is to be sent again (the stub asked for it with `-`).
    pub resend: bool,
    pub outcome: AckOutcome,
}

/// The step after reading byte `b`, the `reads`-th byte read since the packet was first sent:
/// `-` sends the packet again; `+` ends the wait, and so does `$`, which begins the reply;
/// any other byte is skipped; after [`ACK_ATTEMPTS`] bytes without an end, the wait fails.
pub fn ack_step(reads: usize, b: u8) -> (r: AckStep)
    requires
        1 <= reads <= ACK_ATTEMPTS,
    ensures
        r.resend == (b == 45u8),
        r.outcome == (if b == 43u8 {
            AckOutcome::Acknowledged
        } else if b == 36u8 {
            AckOutcome::ReplyBegun
        } else if reads < ACK_ATTEMPTS {
            AckOutcome::KeepWaiting
        } else {
            AckOutcome::NotAcknowledged
        }),
{
    let outcome = match ack_reply(b) {
        AckReply::Acked => AckOutcome::Acknowledged,
        AckReply::ReplyStarted => AckOutcome::ReplyBegun,
        _ => if reads < ACK_ATTEMPTS {
            AckOutcome::KeepWaiting
        } else {
            AckOutcome::NotAcknowledged
        },
    };
    let resend = match ack_reply(b) {
        AckReply::Resend => true,
        _ => false,
    };
    AckStep { resend, outcome }
}

proof fn lemma_first_byte_at(s: Seq<u8>, b: u8, from: int, i: int)
    requires
        0 <= from <= i < s.len(),
        s[i] == b,
        forall|k: int| from <= k < i ==> s[k] != b,
    ensures
        first_byte_from(s, b, from) == Some(i),
    decreases i - from,
{
    if from < i {
        lemma_first_byte_at(s, b, from + 1, i);
    }
}

proof fn lemma_unescaped_plain(raw: Seq<u8>)
    requires
        forall|k: int| 0 <= k < raw.len() ==> raw[k] != 125u8,
    ensures
        unescaped(raw) == raw,
    decreases raw.len(),
{
    if raw.len() > 0 {
        let t = raw.skip(1);
        assert forall|k: int| 0 <= k < t.len() implies t[k] != 125u8 by {
            assert(t[k] == raw[k + 1]);
        }
        lemma_unescaped_plain(t);
        assert(seq![raw[0]] + t =~= raw);
    }
}

proof fn lemma_hex_digit_value(d: nat)
    requires
        d < 16,
    ensures
        hex_value(hex_digit_byte(d)) == Some(d),
{
}

/// A framed packet reads back as what was framed: for a payload holding no `#` and no `}`,
/// scanning its frame, after any bytes without a `$` (such as acknowledgements) and before
/// any bytes at all, gives the payload and consumes everything up to the frame's end exactly.
pub proof fn frame_scan_roundtrip(noise: Seq<u8>, payload: Seq<u8>, rest: Seq<u8>)
    requires
        forall|k: int| 0 <= k < noise.len() ==> noise[k] != 36u8,
        forall|k: int| 0 <= k < payload.len() ==> payload[k] != 35u8 && payload[k] != 125u8,
    ensures
        scanned(noise + framed(payload) + rest) == (
            2int,
            noise.len() + payload.len() + 4int,
            payload,
        ),
{
    let fr = framed(payload);
    let buf = noise + fr + rest;
    let n = noise.len() as int;
    let c = packet_checksum(payload) as nat;
    let h: int = payload.len() as int + 1;
    assert forall|k: int| 0 <= k < fr.len() implies buf[n + k] == fr[k] by {}
    assert(fr[0] == 36u8);
    assert forall|k: int| 0 <= k < n implies buf[k] != 36u8 by {
        assert(buf[k] == noise[k]);
    }
    assert(buf[n] == 36u8);
    lemma_first_byte_at(buf, 36u8, 0, n);
    assert forall|k: int| n + 1 <= k < n + h implies buf[k] != 35u8 by {
        assert(buf[k] == fr[k - n]);
        assert(fr[k - n] == payload[k - n - 1]);
    }
    assert(fr[h] == 35u8);
    assert(buf[n + h] == 35u8);
    lemma_first_byte_at(buf, 35u8, n + 1, n + h);
    assert forall|k: int| 0 <= k < payload.len() implies buf.subrange(n + 1, n + h)[k]
        == payload[k] by {
        assert(buf[n + 1 + k] == fr[1 + k]);
    }
    assert(buf.subrange(n + 1, n + h) =~= payload);
    lemma_hex_digit_value(c / 16);
    lemma_hex_digit_value(c % 16);
    assert(buf[n + h + 1] == fr[h + 1]);
    assert(buf[n + h + 2] == fr[h + 2]);
    assert(fr[h + 1] == hex_digit_byte(c / 16));
    assert(fr[h + 2] == hex_digit_byte(c % 16));
    assert(16 * (c / 16) + c % 16 == c);
    lemma_unescaped_plain(payload);
}

} // verus!
