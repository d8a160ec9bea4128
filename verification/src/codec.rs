//! The packet codec: the command vocabulary (`Cmd`), the wire envelope
//! (`Pack`), and the pure binary encoding between packets and datagram
//! payloads.
//!
//! Wire layout of one packet: a 4-byte big-endian sequence number, one
//! acknowledgement flag byte (0 or 1), a 4-byte big-endian acknowledgement
//! number when the flag is 1, a command tag byte, and the tag's fields in
//! fixed or length-prefixed form. A datagram carries exactly one packet:
//! trailing bytes are malformed.

use vstd::prelude::*;
use vstd::utf8::is_ascii_chars;

verus! {

/// Command tag byte for `Cmd::Connect`.
pub const TAG_CONNECT: u8 = 1;

/// Command tag byte for `Cmd::Move`.
pub const TAG_MOVE: u8 = 2;

/// Command tag byte for `Cmd::Leave`.
pub const TAG_LEAVE: u8 = 3;

/// Longest connect payload the length-prefixed wire form can carry.
pub const MAX_PAYLOAD: usize = 0xFFFF;

/// A game-level intent or event, free of transport metadata.
///
/// `Connect` opens a handshake and carries the authentication payload;
/// `Move` is a position update superseded by later ones; `Leave` announces
/// an orderly departure.
#[derive(Clone, Debug, PartialEq)]
pub enum Cmd {
    Connect(String),
    Move { x: u32, y: u32 },
    Leave,
}

/// Mathematical model of a `Cmd`.
#[verifier::ext_equal]
pub enum CmdV {
    Connect { payload: Seq<char> },
    Move { x: u32, y: u32 },
    Leave,
}

impl View for Cmd {
    type V = CmdV;

    open spec fn view(&self) -> CmdV {
        match self {
            Cmd::Connect(p) => CmdV::Connect { payload: p@ },
            Cmd::Move { x, y } => CmdV::Move { x: *x, y: *y },
            Cmd::Leave => CmdV::Leave,
        }
    }
}

/// The wire envelope: one command plus sequencing metadata.
#[derive(Clone, Debug, PartialEq)]
pub struct Pack {
    pub cmd: Cmd,
    pub sequence: u32,
    pub ack: Option<u32>,
}

/// Mathematical model of a `Pack`.
#[verifier::ext_equal]
pub struct PackV {
    pub cmd: CmdV,
    pub sequence: u32,
    pub ack: Option<u32>,
}

impl View for Pack {
    type V = PackV;

    open spec fn view(&self) -> PackV {
        PackV { cmd: self.cmd@, sequence: self.sequence, ack: self.ack }
    }
}

impl Pack {
    /// Builds the envelope around a command.
    pub fn new(cmd: Cmd, sequence: u32, ack: Option<u32>) -> (p: Pack)
        ensures
            p@ == (PackV { cmd: cmd@, sequence, ack }),
    {
        Pack { cmd, sequence, ack }
    }
}

/// Why a byte buffer failed to decode: cut short, an unknown command tag,
/// or a field that fails its own validation.
#[derive(Clone, Copy, Debug, PartialEq, Eq, Structural)]
pub enum DecodeError {
    Truncated,
    UnknownTag,
    Malformed,
}

/// A command is encodable: a connect payload is ASCII and fits the
/// 16-bit length prefix. The other commands have fixed-width fields.
pub open spec fn cmd_wf(c: CmdV) -> bool {
    match c {
        CmdV::Connect { payload } => payload.len() <= MAX_PAYLOAD && is_ascii_chars(payload),
        CmdV::Move { .. } => true,
        CmdV::Leave => true,
    }
}

/// A packet is encodable exactly when its command is.
pub open spec fn pack_wf(p: PackV) -> bool {
    cmd_wf(p.cmd)
}

/// Big-endian bytes of a 32-bit word.
pub open spec fn be32(x: u32) -> Seq<u8> {
    seq![(x >> 24) as u8, (x >> 16) as u8, (x >> 8) as u8, x as u8]
}

/// Big-endian bytes of a 16-bit word.
pub open spec fn be16(x: u16) -> Seq<u8> {
    seq![(x >> 8) as u8, x as u8]
}

/// The 32-bit word read back from four big-endian bytes.
pub open spec fn word32(b0: u8, b1: u8, b2: u8, b3: u8) -> u32 {
    ((b0 as u32) << 24) | ((b1 as u32) << 16) | ((b2 as u32) << 8) | (b3 as u32)
}

/// The 16-bit word read back from two big-endian bytes.
pub open spec fn word16(b0: u8, b1: u8) -> u16 {
    ((b0 as u16) << 8) | (b1 as u16)
}

pub proof fn lemma_word32_be32(x: u32)
    ensures
        word32(be32(x)[0], be32(x)[1], be32(x)[2], be32(x)[3]) == x,
{
    assert((((x >> 24) as u8 as u32) << 24) | (((x >> 16) as u8 as u32) << 16) | (((x >> 8)
        as u8 as u32) << 8) | ((x as u8) as u32) == x) by (bit_vector);
}

pub proof fn lemma_word16_be16(x: u16)
    ensures
        word16(be16(x)[0], be16(x)[1]) == x,
{
    assert((((x >> 8) as u8 as u16) << 8) | ((x as u8) as u16) == x) by (bit_vector);
}

/// The bytes of an ASCII character sequence, one byte per character.
pub open spec fn ascii_bytes(s: Seq<char>) -> Seq<u8> {
    s.map_values(|c: char| c as u8)
}

/// The characters read back from a sequence of bytes below 128.
pub open spec fn ascii_chars_of(b: Seq<u8>) -> Seq<char> {
    b.map_values(|x: u8| x as char)
}

/// The wire bytes of a command: its tag, then its fields.
pub open spec fn spec_encode_cmd(c: CmdV) -> Seq<u8> {
    match c {
        CmdV::Connect { payload } => seq![TAG_CONNECT] + be16(payload.len() as u16)
            + ascii_bytes(payload),
        CmdV::Move { x, y } => seq![TAG_MOVE] + be32(x) + be32(y),
        CmdV::Leave => seq![TAG_LEAVE],
    }
}

/// The wire bytes of a whole packet.
pub open spec fn spec_encode(p: PackV) -> Seq<u8> {
    be32(p.sequence) + (match p.ack {
        Some(a) => seq![1u8] + be32(a),
        None => seq![0u8],
    }) + spec_encode_cmd(p.cmd)
}

/// Decoding of the command part of a buffer, all or nothing.
pub open spec fn spec_decode_cmd(rest: Seq<u8>) -> Result<CmdV, DecodeError> {
    if rest.len() < 1 {
        Err(DecodeError::Truncated)
    } else if rest[0] == TAG_CONNECT {
        if rest.len() < 3 {
            Err(DecodeError::Truncated)
        } else {
            let n = word16(rest[1], rest[2]) as int;
            if rest.len() < 3 + n {
                Err(DecodeError::Truncated)
            } else if rest.len() > 3 + n {
                Err(DecodeError::Malformed)
            } else if exists|i: int| 3 <= i < rest.len() && #[trigger] rest[i] >= 128 {
                Err(DecodeError::Malformed)
            } else {
                Ok(CmdV::Connect { payload: ascii_chars_of(rest.skip(3)) })
            }
        }
    } else if rest[0] == TAG_MOVE {
        if rest.len() < 9 {
            Err(DecodeError::Truncated)
        } else if rest.len() > 9 {
            Err(DecodeError::Malformed)
        } else {
            Ok(CmdV::Move {
                x: word32(rest[1], rest[2], rest[3], rest[4]),
                y: word32(rest[5], rest[6], rest[7], rest[8]),
            })
        }
    } else if rest[0] == TAG_LEAVE {
        if rest.len() > 1 {
            Err(DecodeError::Malformed)
        } else {
            Ok(CmdV::Leave)
        }
    } else {
        Err(DecodeError::UnknownTag)
    }
}

/// Decoding of a whole buffer: the envelope header, then the command.
pub open spec fn spec_decode(b: Seq<u8>) -> Result<PackV, DecodeError> {
    if b.len() < 5 {
        Err(DecodeError::Truncated)
    } else {
        let sequence = word32(b[0], b[1], b[2], b[3]);
        if b[4] == 0 {
            match spec_decode_cmd(b.skip(5)) {
                Ok(c) => Ok(PackV { cmd: c, sequence, ack: None }),
                Err(e) => Err(e),
            }
        } else if b[4] == 1 {
            if b.len() < 9 {
                Err(DecodeError::Truncated)
            } else {
                let ack = word32(b[5], b[6], b[7], b[8]);
                match spec_decode_cmd(b.skip(9)) {
                    Ok(c) => Ok(PackV { cmd: c, sequence, ack: Some(ack) }),
                    Err(e) => Err(e),
                }
            }
        } else {
            Err(DecodeError::Malformed)
        }
    }
}

/// Relies on `String::push`: appends exactly the given character.
pub assume_specification[ String::push ](s: &mut String, ch: char)
    ensures
        final(s)@ == old(s)@.push(ch),
;

fn push_be32(out: &mut Vec<u8>, x: u32)
    ensures
        final(out)@ == old(out)@ + be32(x),
{
    out.push((x >> 24) as u8);
    out.push((x >> 16) as u8);
    out.push((x >> 8) as u8);
    out.push(x as u8);
    assert(out@ =~= old(out)@ + be32(x));
}

fn push_be16(out: &mut Vec<u8>, x: u16)
    ensures
        final(out)@ == old(out)@ + be16(x),
{
    out.push((x >> 8) as u8);
    out.push(x as u8);
    assert(out@ =~= old(out)@ + be16(x));
}

/// Checks whether a packet fits the wire form, which `encode` demands.
pub fn pack_encodable(p: &Pack) -> (r: bool)
    ensures
        r == pack_wf(p@),
{
    match &p.cmd {
        Cmd::Connect(s) => {
            let st: &str = s.as_str();
            if st.is_ascii() {
                proof {
                    broadcast use vstd::string::is_ascii_spec_bytes;
                }
                st.as_bytes().len() <= MAX_PAYLOAD
            } else {
                false
            }
        },
        Cmd::Move { .. } => true,
        Cmd::Leave => true,
    }
}

/// The packet re-stamped with the sequence number a driver assigns at send
/// time.
pub open spec fn reseq(p: PackV, sequence: u32) -> PackV {
    PackV { cmd: p.cmd, sequence, ack: p.ack }
}

/// Turns a packet into the datagram payload that carries it.
pub fn encode(p: &Pack) -> (r: Vec<u8>)
    requires
        pack_wf(p@),
    ensures
        r@ == spec_encode(p@),
{
    let r = encode_with_seq(p, p.sequence);
    proof {
        assert(reseq(p@, p.sequence) =~= p@);
    }
    r
}

/// Turns a packet into its datagram payload, re-stamped with the sequence
/// number the sending driver hands out.
pub fn encode_with_seq(p: &Pack, sequence: u32) -> (r: Vec<u8>)
    requires
        pack_wf(p@),
    ensures
        r@ == spec_encode(reseq(p@, sequence)),
{
    let mut out: Vec<u8> = Vec::new();
    push_be32(&mut out, sequence);
    match &p.ack {
        Some(a) => {
            out.push(1u8);
            push_be32(&mut out, *a);
        },
        None => {
            out.push(0u8);
        },
    }
    let ghost header = out@;
    match &p.cmd {
        Cmd::Connect(s) => {
            out.push(TAG_CONNECT);
            let st: &str = s.as_str();
            let bs: &[u8] = st.as_bytes();
            proof {
                vstd::string::is_ascii_spec_bytes(st);
                assert(bs@.len() == s@.len());
                assert forall|k: int| 0 <= k < bs@.len() implies bs@[k] == ascii_bytes(s@)[k] by {
                    assert(bs@[k] == s@.index(k) as u8);
                }
                assert(bs@ =~= ascii_bytes(s@));
            }
            assert(bs@.len() <= MAX_PAYLOAD);
            push_be16(&mut out, bs.len() as u16);
            assert(out@ =~= header + seq![TAG_CONNECT] + be16(bs@.len() as u16) + bs@.take(0));
            let mut i: usize = 0;
            while i < bs.len()
                invariant
                    i <= bs@.len(),
                    bs@ == ascii_bytes(p@.cmd->Connect_payload),
                    out@ == header + seq![TAG_CONNECT] + be16(bs@.len() as u16) + bs@.take(
                        i as int,
                    ),
                decreases bs@.len() - i,
            {
                out.push(bs[i]);
                assert(bs@.take(i + 1) =~= bs@.take(i as int).push(bs@[i as int]));
                i += 1;
            }
            assert(bs@.take(bs@.len() as int) =~= bs@);
            assert(out@ =~= spec_encode(reseq(p@, sequence)));
        },
        Cmd::Move { x, y } => {
            out.push(TAG_MOVE);
            push_be32(&mut out, *x);
            push_be32(&mut out, *y);
            assert(out@ =~= spec_encode(reseq(p@, sequence)));
        },
        Cmd::Leave => {
            out.push(TAG_LEAVE);
            assert(out@ =~= spec_encode(reseq(p@, sequence)));
        },
    }
    out
}

fn read_be32(b: &Vec<u8>, off: usize) -> (r: u32)
    requires
        off + 4 <= b@.len(),
    ensures
        r == word32(b@[off as int], b@[off + 1], b@[off + 2], b@[off + 3]),
{
    let len = b.len();
    assert(off + 4 <= len);
    ((b[off] as u32) << 24) | ((b[off + 1] as u32) << 16) | ((b[off + 2] as u32) << 8) | (b[off
        + 3] as u32)
}

/// Reads the one packet a datagram payload carries, all or nothing.
pub fn decode(b: &Vec<u8>) -> (r: Result<Pack, DecodeError>)
    ensures
        match r {
            Ok(p) => spec_decode(b@) == Ok::<PackV, DecodeError>(p@),
            Err(e) => spec_decode(b@) == Err::<PackV, DecodeError>(e),
        },
{
    if b.len() < 5 {
        return Err(DecodeError::Truncated);
    }
    let sequence = read_be32(b, 0);
    let flag = b[4];
    let (ack, off): (Option<u32>, usize) = if flag == 0 {
        (None, 5)
    } else if flag == 1 {
        if b.len() < 9 {
            return Err(DecodeError::Truncated);
        }
        (Some(read_be32(b, 5)), 9)
    } else {
        return Err(DecodeError::Malformed);
    };
    match decode_cmd(b, off) {
        Ok(cmd) => Ok(Pack { cmd, sequence, ack }),
        Err(e) => Err(e),
    }
}

/// Reads the command part of a buffer, starting at `off`.
fn decode_cmd(b: &Vec<u8>, off: usize) -> (r: Result<Cmd, DecodeError>)
    requires
        off <= b@.len(),
    ensures
        match r {
            Ok(c) => spec_decode_cmd(b@.skip(off as int)) == Ok::<CmdV, DecodeError>(c@),
            Err(e) => spec_decode_cmd(b@.skip(off as int)) == Err::<CmdV, DecodeError>(e),
        },
{
    let len = b.len();
    let ghost rest = b@.skip(off as int);
    assert(rest.len() == b@.len() - off);
    assert(forall|i: int| 0 <= i < rest.len() ==> rest[i] == b@[off + i]);
    if len - off < 1 {
        return Err(DecodeError::Truncated);
    }
    let tag = b[off];
    if tag == TAG_CONNECT {
        if len - off < 3 {
            return Err(DecodeError::Truncated);
        }
        let n: usize = (((b[off + 1] as u16) << 8) | (b[off + 2] as u16)) as usize;
        assert(n == word16(rest[1], rest[2]) as int);
        if len - off - 3 < n {
            return Err(DecodeError::Truncated);
        }
        if len - off - 3 > n {
            return Err(DecodeError::Malformed);
        }
        let mut s = String::new();
        let mut i: usize = 0;
        while i < n
            invariant
                i <= n,
                off + 3 + n == len,
                len == b@.len(),
                rest[0] == TAG_CONNECT,
                n == word16(rest[1], rest[2]) as int,
                rest == b@.skip(off as int),
                rest.len() == 3 + n,
                forall|j: int| 3 <= j < 3 + i ==> #[trigger] rest[j] < 128,
                s@ == ascii_chars_of(rest.subrange(3, 3 + i)),
            decreases n - i,
        {
            let byte = b[off + 3 + i];
            assert(byte == rest[3 + i]);
            if byte >= 128 {
                proof {
                    let j: int = 3 + i as int;
                    assert(3 <= j < rest.len());
                    assert(rest[j] >= 128);
                    assert(exists|k: int| 3 <= k < rest.len() && #[trigger] rest[k] >= 128);
                    assert(rest.len() == 3 + word16(rest[1], rest[2]) as int);
                }
                return Err(DecodeError::Malformed);
            }
            s.push(byte as char);
            assert(rest.subrange(3, 3 + (i + 1)) =~= rest.subrange(3, 3 + i as int).push(
                rest[3 + i],
            ));
            assert(s@ =~= ascii_chars_of(rest.subrange(3, 3 + (i + 1))));
            i += 1;
        }
        assert(rest.subrange(3, 3 + n as int) =~= rest.skip(3));
        assert(!(exists|j: int| 3 <= j < rest.len() && #[trigger] rest[j] >= 128));
        Ok(Cmd::Connect(s))
    } else if tag == TAG_MOVE {
        if len - off < 9 {
            return Err(DecodeError::Truncated);
        }
        if len - off > 9 {
            return Err(DecodeError::Malformed);
        }
        let x = read_be32(b, off + 1);
        let y = read_be32(b, off + 5);
        Ok(Cmd::Move { x, y })
    } else if tag == TAG_LEAVE {
        if len - off > 1 {
            return Err(DecodeError::Malformed);
        }
        Ok(Cmd::Leave)
    } else {
        Err(DecodeError::UnknownTag)
    }
}

/// Round trip at the command level: decoding an encoded command yields it back.
pub proof fn lemma_cmd_round_trip(c: CmdV)
    requires
        cmd_wf(c),
    ensures
        spec_decode_cmd(spec_encode_cmd(c)) == Ok::<CmdV, DecodeError>(c),
{
    let enc = spec_encode_cmd(c);
    match c {
        CmdV::Connect { payload } => {
            let n16 = payload.len() as u16;
            lemma_word16_be16(n16);
            assert(enc[0] == TAG_CONNECT);
            assert(enc[1] == be16(n16)[0] && enc[2] == be16(n16)[1]);
            assert(word16(enc[1], enc[2]) == n16);
            assert(enc.len() == 3 + payload.len());
            assert forall|j: int| 3 <= j < enc.len() implies !(#[trigger] enc[j] >= 128) by {
                assert(enc[j] == ascii_bytes(payload)[j - 3]);
                assert(payload[j - 3] <= '\u{7f}');
            }
            assert(enc.skip(3) =~= ascii_bytes(payload));
            assert forall|j: int| 0 <= j < payload.len() implies #[trigger] ascii_chars_of(
                ascii_bytes(payload),
            )[j] == payload[j] by {
                assert(payload[j] <= '\u{7f}');
            }
            assert(ascii_chars_of(enc.skip(3)) =~= payload);
        },
        CmdV::Move { x, y } => {
            lemma_word32_be32(x);
            lemma_word32_be32(y);
            assert(enc.len() == 9);
            assert(enc[0] == TAG_MOVE);
            assert(enc[1] == be32(x)[0] && enc[2] == be32(x)[1] && enc[3] == be32(x)[2] && enc[4]
                == be32(x)[3]);
            assert(enc[5] == be32(y)[0] && enc[6] == be32(y)[1] && enc[7] == be32(y)[2] && enc[8]
                == be32(y)[3]);
        },
        CmdV::Leave => {
            assert(enc.len() == 1);
            assert(enc[0] == TAG_LEAVE);
        },
    }
}

/// Round trip: decoding an encoded well-formed packet yields that packet.
pub proof fn lemma_round_trip(p: PackV)
    requires
        pack_wf(p),
    ensures
        spec_decode(spec_encode(p)) == Ok::<PackV, DecodeError>(p),
{
    let e = spec_encode(p);
    let cmd = spec_encode_cmd(p.cmd);
    lemma_word32_be32(p.sequence);
    lemma_cmd_round_trip(p.cmd);
    assert(cmd.len() >= 1);
    match p.ack {
        None => {
            assert(e[0] == be32(p.sequence)[0] && e[1] == be32(p.sequence)[1] && e[2] == be32(
                p.sequence,
            )[2] && e[3] == be32(p.sequence)[3]);
            assert(word32(e[0], e[1], e[2], e[3]) == p.sequence);
            assert(e[4] == 0u8);
            assert(e.skip(5) =~= cmd);
        },
        Some(a) => {
            lemma_word32_be32(a);
            assert(e[0] == be32(p.sequence)[0] && e[1] == be32(p.sequence)[1] && e[2] == be32(
                p.sequence,
            )[2] && e[3] == be32(p.sequence)[3]);
            assert(word32(e[0], e[1], e[2], e[3]) == p.sequence);
            assert(e[4] == 1u8);
            assert(e.len() >= 10);
            assert(e[5] == be32(a)[0] && e[6] == be32(a)[1] && e[7] == be32(a)[2] && e[8] == be32(
                a,
            )[3]);
            assert(word32(e[5], e[6], e[7], e[8]) == a);
            assert(e.skip(9) =~= cmd);
        },
    }
}

/// Truncation robustness at the command level.
pub proof fn lemma_cmd_truncated(c: CmdV, m: int)
    requires
        cmd_wf(c),
        0 <= m < spec_encode_cmd(c).len(),
    ensures
        spec_decode_cmd(spec_encode_cmd(c).take(m)) == Err::<CmdV, DecodeError>(
            DecodeError::Truncated,
        ),
{
    let enc = spec_encode_cmd(c);
    let t = enc.take(m);
    assert(t.len() == m);
    assert forall|j: int| 0 <= j < m implies t[j] == enc[j] by {}
    match c {
        CmdV::Connect { payload } => {
            let n16 = payload.len() as u16;
            lemma_word16_be16(n16);
            assert(enc.len() == 3 + payload.len());
            if m >= 1 {
                assert(t[0] == TAG_CONNECT);
            }
            if m >= 3 {
                assert(t[1] == be16(n16)[0] && t[2] == be16(n16)[1]);
                assert(word16(t[1], t[2]) == n16);
                assert(t.len() < 3 + payload.len());
            }
        },
        CmdV::Move { x, y } => {
            if m >= 1 {
                assert(t[0] == TAG_MOVE);
            }
            assert(t.len() < 9);
        },
        CmdV::Leave => {
            assert(m == 0);
        },
    }
}

/// Truncation robustness: a datagram cut short at any boundary before its
/// final byte decodes to `Truncated`, never to a wrong packet.
pub proof fn lemma_truncated(p: PackV, m: int)
    requires
        pack_wf(p),
        0 <= m < spec_encode(p).len(),
    ensures
        spec_decode(spec_encode(p).take(m)) == Err::<PackV, DecodeError>(DecodeError::Truncated),
{
    let e = spec_encode(p);
    let cmd = spec_encode_cmd(p.cmd);
    let t = e.take(m);
    assert(t.len() == m);
    assert forall|j: int| 0 <= j < m implies t[j] == e[j] by {}
    if m < 5 {
    } else {
        match p.ack {
            None => {
                assert(t[4] == 0u8);
                assert(e.len() == 5 + cmd.len());
                assert(t.skip(5) =~= cmd.take(m - 5));
                lemma_cmd_truncated(p.cmd, m - 5);
            },
            Some(a) => {
                assert(t[4] == 1u8);
                assert(e.len() == 9 + cmd.len());
                if m < 9 {
                } else {
                    assert(t.skip(9) =~= cmd.take(m - 9));
                    lemma_cmd_truncated(p.cmd, m - 9);
                }
            },
        }
    }
}

/// Whatever decodes successfully is itself well formed, hence encodable.
pub proof fn lemma_decode_wf(b: Seq<u8>)
    ensures
        spec_decode(b) matches Ok(p) ==> pack_wf(p),
{
    if spec_decode(b) is Ok {
        let off: int = if b[4] == 0 { 5 } else { 9 };
        let rest = b.skip(off);
        assert(spec_decode_cmd(rest) is Ok);
        if rest[0] == TAG_CONNECT {
            let n = word16(rest[1], rest[2]) as int;
            let payload = ascii_chars_of(rest.skip(3));
            assert(rest.len() == 3 + n);
            assert(payload.len() == n <= 0xFFFF);
            assert forall|j: int| 0 <= j < payload.len() implies '\0' <= #[trigger] payload[j]
                <= '\u{7f}' by {
                assert(payload[j] == rest.skip(3)[j] as char);
                assert(rest.skip(3)[j] == rest[3 + j]);
                assert(rest[3 + j] < 128);
            }
        }
    }
}

} // verus!
