use vstd::prelude::*;
use vstd::slice::{slice_subrange, slice_to_vec};
use crate::bytes::{append_bytes, be32, be32_value, be_to_u32, u32_to_be, lemma_be32_value};
use crate::message::{
    MeshMessage, MessageModel, MessageType, opt_bytes_view, opt_id_view, tag_of, type_of_tag,
    lemma_tag_round_trip,
};

verus! {

/// Largest message body a connection accepts after the length prefix.
pub const MAX_FRAME_LEN: u32 = 1_000_000;

/// Optional 32-byte identifier: a zero byte, or a one byte and the 32 bytes.
pub open spec fn encode_opt_id(o: Option<Seq<u8>>) -> Seq<u8> {
    match o {
        None => seq![0u8],
        Some(d) => seq![1u8] + d,
    }
}

/// Byte string: its length in four big-endian bytes, then the bytes.
pub open spec fn encode_blob(b: Seq<u8>) -> Seq<u8> {
    be32(b.len() as u32) + b
}

/// Optional byte string: a zero byte, or a one byte and the byte string.
pub open spec fn encode_opt_blob(o: Option<Seq<u8>>) -> Seq<u8> {
    match o {
        None => seq![0u8],
        Some(b) => seq![1u8] + encode_blob(b),
    }
}

/// The wire encoding of a message, field by field in declaration order.
pub open spec fn encode_message(m: MessageModel) -> Seq<u8> {
    seq![tag_of(m.msg_type)] + m.sender + m.id + seq![m.ttl] + encode_opt_id(m.destination)
        + encode_blob(m.payload) + encode_opt_blob(m.signature)
}

/// A message model that can stand on the wire: identifiers of 32 bytes and
/// an encoding whose length fits the 32-bit length prefix.
pub open spec fn wire_ok(m: MessageModel) -> bool {
    &&& m.sender.len() == 32
    &&& m.id.len() == 32
    &&& (m.destination matches Some(d) ==> d.len() == 32)
    &&& encode_message(m).len() <= u32::MAX
}

pub open spec fn parse_opt_id(s: Seq<u8>, pos: int) -> Option<(Option<Seq<u8>>, int)> {
    if pos < 0 || pos >= s.len() {
        None
    } else if s[pos] == 0 {
        Some((None, pos + 1))
    } else if s[pos] == 1 && pos + 33 <= s.len() {
        Some((Some(s.subrange(pos + 1, pos + 33)), pos + 33))
    } else {
        None
    }
}

pub open spec fn parse_blob(s: Seq<u8>, pos: int) -> Option<(Seq<u8>, int)> {
    if pos < 0 || pos + 4 > s.len() {
        None
    } else {
        let n = be32_value(s[pos], s[pos + 1], s[pos + 2], s[pos + 3]);
        if pos + 4 + n > s.len() {
            None
        } else {
            Some((s.subrange(pos + 4, pos + 4 + n), pos + 4 + n))
        }
    }
}

pub open spec fn parse_opt_blob(s: Seq<u8>, pos: int) -> Option<(Option<Seq<u8>>, int)> {
    if pos < 0 || pos >= s.len() {
        None
    } else if s[pos] == 0 {
        Some((None, pos + 1))
    } else if s[pos] == 1 {
        match parse_blob(s, pos + 1) {
            Some((b, p)) => Some((Some(b), p)),
            None => None,
        }
    } else {
        None
    }
}

/// The message a byte string decodes to: every field must parse and the
/// fields must use up the whole string.
pub open spec fn parse_message(s: Seq<u8>) -> Option<MessageModel> {
    if s.len() < 66 {
        None
    } else {
        match type_of_tag(s[0]) {
            None => None,
            Some(t) => match parse_opt_id(s, 66) {
                None => None,
                Some((dest, p1)) => match parse_blob(s, p1) {
                    None => None,
                    Some((payload, p2)) => match parse_opt_blob(s, p2) {
                        None => None,
                        Some((sig, p3)) => if p3 == s.len() {
                            Some(MessageModel {
                                msg_type: t,
                                sender: s.subrange(1, 33),
                                id: s.subrange(33, 65),
                                ttl: s[65],
                                destination: dest,
                                payload,
                                signature: sig,
                            })
                        } else {
                            None
                        },
                    },
                },
            },
        }
    }
}

proof fn lemma_parse_blob_of(pre: Seq<u8>, b: Seq<u8>, post: Seq<u8>)
    requires
        b.len() <= u32::MAX,
    ensures
        parse_blob(pre + encode_blob(b) + post, pre.len() as int)
            == Some((b, (pre.len() + 4 + b.len()) as int)),
{
    let s = pre + encode_blob(b) + post;
    let p = pre.len() as int;
    lemma_be32_value(b.len() as u32);
    assert(s[p] == be32(b.len() as u32)[0]);
    assert(s[p + 1] == be32(b.len() as u32)[1]);
    assert(s[p + 2] == be32(b.len() as u32)[2]);
    assert(s[p + 3] == be32(b.len() as u32)[3]);
    assert(s.subrange(p + 4, p + 4 + b.len()) =~= b);
}

proof fn lemma_parse_opt_id_of(pre: Seq<u8>, d: Option<Seq<u8>>, post: Seq<u8>)
    requires
        d matches Some(x) ==> x.len() == 32,
    ensures
        parse_opt_id(pre + encode_opt_id(d) + post, pre.len() as int)
            == Some((d, (pre.len() + encode_opt_id(d).len()) as int)),
{
    let s = pre + encode_opt_id(d) + post;
    let p = pre.len() as int;
    match d {
        None => {
            assert(s[p] == 0);
        },
        Some(x) => {
            assert(s[p] == 1);
            assert(s.subrange(p + 1, p + 33) =~= x);
        },
    }
}

proof fn lemma_parse_opt_blob_of(pre: Seq<u8>, g: Option<Seq<u8>>)
    requires
        g matches Some(x) ==> x.len() <= u32::MAX,
    ensures
        parse_opt_blob(pre + encode_opt_blob(g), pre.len() as int)
            == Some((g, (pre.len() + encode_opt_blob(g).len()) as int)),
{
    let s = pre + encode_opt_blob(g);
    let p = pre.len() as int;
    match g {
        None => {
            assert(s[p] == 0);
        },
        Some(x) => {
            assert(s[p] == 1);
            assert(s =~= (pre + seq![1u8]) + encode_blob(x) + Seq::<u8>::empty());
            lemma_parse_blob_of(pre + seq![1u8], x, Seq::<u8>::empty());
        },
    }
}

/// Decoding the encoding of a well-formed message gives the message back.
#[verifier::rlimit(40)]
pub proof fn lemma_wire_round_trip(m: MessageModel)
    requires
        wire_ok(m),
    ensures
        parse_message(encode_message(m)) == Some(m),
{
    let s = encode_message(m);
    let head = seq![tag_of(m.msg_type)] + m.sender + m.id + seq![m.ttl];
    let od = encode_opt_id(m.destination);
    let eb = encode_blob(m.payload);
    let os = encode_opt_blob(m.signature);
    assert(head.len() == 66);
    assert(s =~= head + (od + eb + os));
    lemma_tag_round_trip(m.msg_type);
    assert(s[0] == head[0]);
    assert(s.subrange(1, 33) =~= m.sender);
    assert(s.subrange(33, 65) =~= m.id);
    assert(s[65] == m.ttl);
    assert(s =~= head + od + (eb + os));
    lemma_parse_opt_id_of(head, m.destination, eb + os);
    assert(s =~= (head + od) + eb + os);
    lemma_parse_blob_of(head + od, m.payload, os);
    assert(s =~= (head + od + eb) + os);
    lemma_parse_opt_blob_of(head + od + eb, m.signature);
}

/// Why a byte string is not a message.
#[derive(Debug, Clone, Copy, PartialEq, Eq, Structural)]
pub enum DecodeError {
    /// The bytes do not follow the wire encoding.
    Malformed,
}

/// Why a length prefix closes the connection.
#[derive(Debug, Clone, Copy, PartialEq, Eq, Structural)]
pub enum FrameError {
    /// The announced body is longer than `MAX_FRAME_LEN`.
    TooLarge,
}

/// The body length a frame header announces, or `TooLarge` (and the
/// connection is to be closed) when it exceeds `MAX_FRAME_LEN`.
pub fn frame_body_len(header: [u8; 4]) -> (r: Result<usize, FrameError>)
    ensures
        r == if be32_value(header@[0], header@[1], header@[2], header@[3]) > MAX_FRAME_LEN {
            Err::<usize, FrameError>(FrameError::TooLarge)
        } else {
            Ok::<usize, FrameError>(be32_value(header@[0], header@[1], header@[2], header@[3]) as usize)
        },
{
    let n = be_to_u32(header[0], header[1], header[2], header[3]);
    if n > MAX_FRAME_LEN {
        Err(FrameError::TooLarge)
    } else {
        Ok(n as usize)
    }
}

fn read_id(s: &[u8], pos: usize) -> (r: [u8; 32])
    requires
        pos + 32 <= s@.len(),
    ensures
        r@ == s@.subrange(pos as int, pos + 32),
{
    let n = s.len();
    let mut a = [0u8; 32];
    let mut i: usize = 0;
    while i < 32
        invariant
            0 <= i <= 32,
            n == s@.len(),
            pos + 32 <= s@.len(),
            a@.len() == 32,
            forall|j: int| 0 <= j < i ==> a@[j] == s@[pos + j],
        decreases 32 - i,
    {
        a[i] = s[pos + i];
        i = i + 1;
    }
    assert(a@ =~= s@.subrange(pos as int, pos + 32));
    a
}

fn read_opt_id(s: &[u8], pos: usize) -> (r: Option<(Option<[u8; 32]>, usize)>)
    ensures
        match r {
            None => parse_opt_id(s@, pos as int) is None,
            Some((d, p)) => parse_opt_id(s@, pos as int) == Some((opt_id_view(d), p as int)),
        },
{
    if pos >= s.len() {
        None
    } else if s[pos] == 0 {
        Some((None, pos + 1))
    } else if s[pos] == 1 && 33 <= s.len() - pos {
        Some((Some(read_id(s, pos + 1)), pos + 33))
    } else {
        None
    }
}

fn read_blob(s: &[u8], pos: usize) -> (r: Option<(Vec<u8>, usize)>)
    ensures
        match r {
            None => parse_blob(s@, pos as int) is None,
            Some((b, p)) => parse_blob(s@, pos as int) == Some((b@, p as int)),
        },
{
    if pos > s.len() || 4 > s.len() - pos {
        return None;
    }
    let n = be_to_u32(s[pos], s[pos + 1], s[pos + 2], s[pos + 3]) as usize;
    if n > s.len() - pos - 4 {
        return None;
    }
    let start = pos + 4;
    let b = slice_to_vec(slice_subrange(s, start, start + n));
    Some((b, start + n))
}

fn read_opt_blob(s: &[u8], pos: usize) -> (r: Option<(Option<Vec<u8>>, usize)>)
    ensures
        match r {
            None => parse_opt_blob(s@, pos as int) is None,
            Some((b, p)) => parse_opt_blob(s@, pos as int) == Some((opt_bytes_view(b), p as int)),
        },
{
    if pos >= s.len() {
        None
    } else if s[pos] == 0 {
        Some((None, pos + 1))
    } else if s[pos] == 1 {
        match read_blob(s, pos + 1) {
            Some((b, p)) => Some((Some(b), p)),
            None => None,
        }
    } else {
        None
    }
}

fn push_blob(out: &mut Vec<u8>, b: &[u8])
    requires
        b@.len() <= u32::MAX,
    ensures
        final(out)@ == old(out)@ + encode_blob(b@),
{
    let len = u32_to_be(b.len() as u32);
    append_bytes(out, &len);
    append_bytes(out, b);
    assert(final(out)@ =~= old(out)@ + encode_blob(b@));
}

impl MeshMessage {
    /// The deterministic wire encoding of this message.
    pub fn to_bytes(&self) -> (r: Vec<u8>)
        requires
            wire_ok(self@),
        ensures
            r@ == encode_message(self@),
    {
        let mut out: Vec<u8> = Vec::new();
        out.push(self.msg_type.tag());
        append_bytes(&mut out, &self.sender_id);
        append_bytes(&mut out, &self.msg_id);
        out.push(self.ttl);
        let ghost before_dest = out@;
        match &self.destination {
            None => out.push(0u8),
            Some(d) => {
                out.push(1u8);
                append_bytes(&mut out, d);
            },
        }
        assert(out@ =~= before_dest + encode_opt_id(self@.destination));
        assert(seq![tag_of(self.msg_type)] + self.sender_id@ + self.msg_id@ + seq![self.ttl]
            =~= before_dest);
        proof {
            let e = encode_message(self@);
            assert(e =~= before_dest + encode_opt_id(self@.destination) + encode_blob(self@.payload)
                + encode_opt_blob(self@.signature));
        }
        push_blob(&mut out, self.payload.as_slice());
        let ghost before_sig = out@;
        match &self.signature {
            None => out.push(0u8),
            Some(g) => {
                out.push(1u8);
                push_blob(&mut out, g.as_slice());
            },
        }
        assert(out@ =~= before_sig + encode_opt_blob(self@.signature));
        out
    }

    /// Decodes a message from its wire encoding.
    pub fn from_bytes(data: &[u8]) -> (r: Result<MeshMessage, DecodeError>)
        ensures
            match r {
                Ok(m) => parse_message(data@) == Some(m@),
                Err(_) => parse_message(data@) is None,
            },
    {
        if data.len() < 66 {
            return Err(DecodeError::Malformed);
        }
        let msg_type = match MessageType::from_tag(data[0]) {
            Some(t) => t,
            None => return Err(DecodeError::Malformed),
        };
        let sender_id = read_id(data, 1);
        let msg_id = read_id(data, 33);
        let ttl = data[65];
        let (destination, p1) = match read_opt_id(data, 66) {
            Some(x) => x,
            None => return Err(DecodeError::Malformed),
        };
        let (payload, p2) = match read_blob(data, p1) {
            Some(x) => x,
            None => return Err(DecodeError::Malformed),
        };
        let (signature, p3) = match read_opt_blob(data, p2) {
            Some(x) => x,
            None => return Err(DecodeError::Malformed),
        };
        if p3 != data.len() {
            return Err(DecodeError::Malformed);
        }
        Ok(MeshMessage { msg_type, sender_id, msg_id, ttl, destination, payload, signature })
    }

    /// A length-prefixed frame: the encoding's length in four big-endian
    /// bytes, then the encoding.
    pub fn to_frame(&self) -> (r: Vec<u8>)
        requires
            wire_ok(self@),
        ensures
            r@ == be32(encode_message(self@).len() as u32) + encode_message(self@),
    {
        let body = self.to_bytes();
        let len = u32_to_be(body.len() as u32);
        let mut frame: Vec<u8> = Vec::new();
        append_bytes(&mut frame, &len);
        append_bytes(&mut frame, body.as_slice());
        frame
    }
}

} // verus!
