use vstd::prelude::*;
use vstd::slice::{slice_subrange, slice_to_vec};
use vstd::utf8::{encode_utf8, encode_utf8_valid_utf8, valid_utf8};
use crate::bytes::{append_bytes, be32, be32_value, be_to_u32, u32_to_be, lemma_be32_value};
use crate::file_transfer::{sha256, sha256_of};
use crate::message::{
    tag_of, MessageId, DiscoveryPayload, CallControlPayload, FileAcceptPayload, FileChunkPayload, FileOfferPayload, KeyExchangePayload,
    MeshMessage, MessageType, VoiceNotePayload, VoiceStreamPayload,
};
use crate::wire::DecodeError;

verus! {

/// Relies on std's `String::from_utf8`: a string exactly when the bytes are
/// valid UTF-8, whose encoding is then those bytes.
#[verifier::external_body]
fn utf8_string(b: Vec<u8>) -> (r: Option<String>)
    ensures
        r is Some <==> valid_utf8(b@),
        r matches Some(s) ==> encode_utf8(s@) == b@,
{
    String::from_utf8(b).ok()
}

fn copy_array<const N: usize>(s: &[u8], pos: usize) -> (r: [u8; N])
    requires
        pos + N <= s@.len(),
    ensures
        r@ == s@.subrange(pos as int, pos + N),
{
    let n = s.len();
    let mut a = [0u8; N];
    let mut i: usize = 0;
    while i < N
        invariant
            0 <= i <= N,
            pos + N <= s@.len(),
            n == s@.len(),
            a@.len() == N,
            forall|j: int| 0 <= j < i ==> a@[j] == s@[pos + j],
        decreases N - i,
    {
        a[i] = s[pos + i];
        i = i + 1;
    }
    assert(a@ =~= s@.subrange(pos as int, pos + N));
    a
}

fn tail_vec(s: &[u8], pos: usize) -> (r: Vec<u8>)
    requires
        pos <= s@.len(),
    ensures
        r@ == s@.subrange(pos as int, s@.len() as int),
{
    slice_to_vec(slice_subrange(s, pos, s.len()))
}

/// File offer: identifier, size (eight big-endian bytes), chunk count,
/// digest, then the file name in UTF-8.
pub open spec fn offer_bytes(id: Seq<u8>, size: u64, count: u32, hash: Seq<u8>, name: Seq<char>) -> Seq<u8> {
    id + be32((size / 0x1_0000_0000) as u32) + be32((size % 0x1_0000_0000) as u32) + be32(count) + hash
        + encode_utf8(name)
}

/// File chunk: identifier, sequence number, then the data.
pub open spec fn chunk_bytes(id: Seq<u8>, sequence: u32, data: Seq<u8>) -> Seq<u8> {
    id + be32(sequence) + data
}

/// Voice note: duration in milliseconds, then the audio.
pub open spec fn voice_note_bytes(duration_ms: u32, audio: Seq<u8>) -> Seq<u8> {
    be32(duration_ms) + audio
}

impl KeyExchangePayload {
    /// A key-exchange message to `dest`: one hop, payload the 32-byte key.
    pub fn to_message(&self, sender_id: [u8; 32], dest: [u8; 32]) -> (r: MeshMessage)
        ensures
            r.msg_type == MessageType::KeyExchange,
            r.sender_id == sender_id,
            r.ttl == 1,
            r.destination == Some(dest),
            r.payload@ == self.x25519_public@,
            r.signature is None,
    {
        MeshMessage::new(MessageType::KeyExchange, sender_id, 1, Some(dest), slice_to_vec(&self.x25519_public))
    }

    /// The key carried by a key-exchange message: exactly 32 bytes.
    pub fn from_message(msg: &MeshMessage) -> (r: Result<Self, DecodeError>)
        ensures
            r is Ok <==> msg.payload@.len() == 32,
            r matches Ok(k) ==> k.x25519_public@ == msg.payload@,
    {
        if msg.payload.len() != 32 {
            return Err(DecodeError::Malformed);
        }
        let k: [u8; 32] = copy_array::<32>(msg.payload.as_slice(), 0);
        assert(msg.payload@.subrange(0, 32) =~= msg.payload@);
        Ok(KeyExchangePayload { x25519_public: k })
    }
}

impl FileAcceptPayload {
    /// Decodes an acceptance: exactly the 16-byte file identifier.
    pub fn decode(b: &[u8]) -> (r: Result<Self, DecodeError>)
        ensures
            r is Ok <==> b@.len() == 16,
            r matches Ok(a) ==> a.file_id@ == b@,
    {
        if b.len() != 16 {
            return Err(DecodeError::Malformed);
        }
        assert(b@.subrange(0, 16) =~= b@);
        Ok(FileAcceptPayload { file_id: copy_array::<16>(b, 0) })
    }
}

impl CallControlPayload {
    /// Decodes a call signal: exactly the 16-byte stream identifier.
    pub fn decode(b: &[u8]) -> (r: Result<Self, DecodeError>)
        ensures
            r is Ok <==> b@.len() == 16,
            r matches Ok(a) ==> a.stream_id@ == b@,
    {
        if b.len() != 16 {
            return Err(DecodeError::Malformed);
        }
        assert(b@.subrange(0, 16) =~= b@);
        Ok(CallControlPayload { stream_id: copy_array::<16>(b, 0) })
    }
}

impl FileChunkPayload {
    /// The wire form of a chunk.
    pub fn encode(&self) -> (r: Vec<u8>)
        ensures
            r@ == chunk_bytes(self.file_id@, self.sequence, self.data@),
    {
        let mut out: Vec<u8> = Vec::new();
        append_bytes(&mut out, &self.file_id);
        append_bytes(&mut out, &u32_to_be(self.sequence));
        append_bytes(&mut out, self.data.as_slice());
        out
    }

    /// Decodes a chunk: at least identifier and sequence number.
    pub fn decode(b: &[u8]) -> (r: Result<Self, DecodeError>)
        ensures
            r is Ok <==> b@.len() >= 20,
            r matches Ok(c) ==> b@ == chunk_bytes(c.file_id@, c.sequence, c.data@),
    {
        if b.len() < 20 {
            return Err(DecodeError::Malformed);
        }
        let file_id: [u8; 16] = copy_array::<16>(b, 0);
        let sequence = be_to_u32(b[16], b[17], b[18], b[19]);
        let data = tail_vec(b, 20);
        proof {
            lemma_be32_bytes(sequence, b@[16], b@[17], b@[18], b@[19]);
            assert(b@ =~= chunk_bytes(file_id@, sequence, data@));
        }
        Ok(FileChunkPayload { file_id, sequence, data })
    }
}

/// Four bytes that denote `n` are the big-endian bytes of `n`.
pub proof fn lemma_be32_bytes(n: u32, b0: u8, b1: u8, b2: u8, b3: u8)
    requires
        be32_value(b0, b1, b2, b3) == n,
    ensures
        be32(n) == seq![b0, b1, b2, b3],
{
    let x = n as int;
    assert(x / 0x100_0000 == b0 as int && (x / 0x1_0000) % 0x100 == b1 as int
        && (x / 0x100) % 0x100 == b2 as int && x % 0x100 == b3 as int) by (nonlinear_arith)
        requires
            x == b0 * 0x100_0000 + b1 * 0x1_0000 + b2 * 0x100 + b3,
            0 <= b0 < 256,
            0 <= b1 < 256,
            0 <= b2 < 256,
            0 <= b3 < 256,
    {}
    assert(be32(n) =~= seq![b0, b1, b2, b3]);
}

impl FileOfferPayload {
    /// The wire form of an offer.
    pub fn encode(&self) -> (r: Vec<u8>)
        ensures
            r@ == offer_bytes(self.file_id@, self.size_bytes, self.chunk_count, self.sha256_hash@, self.filename@),
    {
        let mut out: Vec<u8> = Vec::new();
        append_bytes(&mut out, &self.file_id);
        append_bytes(&mut out, &u32_to_be((self.size_bytes / 0x1_0000_0000) as u32));
        append_bytes(&mut out, &u32_to_be((self.size_bytes % 0x1_0000_0000) as u32));
        append_bytes(&mut out, &u32_to_be(self.chunk_count));
        append_bytes(&mut out, &self.sha256_hash);
        append_bytes(&mut out, self.filename.as_str().as_bytes());
        out
    }

    /// Decodes an offer: the fixed fields, then a UTF-8 file name.
    pub fn decode(b: &[u8]) -> (r: Result<Self, DecodeError>)
        ensures
            r is Ok <==> b@.len() >= 60 && valid_utf8(b@.subrange(60, b@.len() as int)),
            r matches Ok(o) ==> b@ == offer_bytes(o.file_id@, o.size_bytes, o.chunk_count, o.sha256_hash@, o.filename@),
    {
        if b.len() < 60 {
            return Err(DecodeError::Malformed);
        }
        let file_id: [u8; 16] = copy_array::<16>(b, 0);
        let hi = be_to_u32(b[16], b[17], b[18], b[19]);
        let lo = be_to_u32(b[20], b[21], b[22], b[23]);
        let chunk_count = be_to_u32(b[24], b[25], b[26], b[27]);
        let sha256_hash: [u8; 32] = copy_array::<32>(b, 28);
        let name = match utf8_string(tail_vec(b, 60)) {
            Some(s) => s,
            None => return Err(DecodeError::Malformed),
        };
        let size_bytes: u64 = (hi as u64) * 0x1_0000_0000 + (lo as u64);
        proof {
            lemma_be32_bytes(hi, b@[16], b@[17], b@[18], b@[19]);
            lemma_be32_bytes(lo, b@[20], b@[21], b@[22], b@[23]);
            lemma_be32_bytes(chunk_count, b@[24], b@[25], b@[26], b@[27]);
            assert(size_bytes / 0x1_0000_0000 == hi && size_bytes % 0x1_0000_0000 == lo) by (nonlinear_arith)
                requires
                    size_bytes == hi * 0x1_0000_0000 + lo,
                    lo < 0x1_0000_0000,
            {}
            assert(b@ =~= offer_bytes(file_id@, size_bytes, chunk_count, sha256_hash@, name@));
        }
        Ok(FileOfferPayload { file_id, filename: name, size_bytes, chunk_count, sha256_hash })
    }
}

impl VoiceNotePayload {
    /// The wire form of a voice note.
    pub fn encode(&self) -> (r: Vec<u8>)
        ensures
            r@ == voice_note_bytes(self.duration_ms, self.audio_data@),
    {
        let mut out: Vec<u8> = Vec::new();
        append_bytes(&mut out, &u32_to_be(self.duration_ms));
        append_bytes(&mut out, self.audio_data.as_slice());
        out
    }

    /// Decodes a voice note: at least the duration.
    pub fn decode(b: &[u8]) -> (r: Result<Self, DecodeError>)
        ensures
            r is Ok <==> b@.len() >= 4,
            r matches Ok(v) ==> b@ == voice_note_bytes(v.duration_ms, v.audio_data@),
    {
        if b.len() < 4 {
            return Err(DecodeError::Malformed);
        }
        let duration_ms = be_to_u32(b[0], b[1], b[2], b[3]);
        let audio_data = tail_vec(b, 4);
        proof {
            lemma_be32_bytes(duration_ms, b@[0], b@[1], b@[2], b@[3]);
            assert(b@ =~= voice_note_bytes(duration_ms, audio_data@));
        }
        Ok(VoiceNotePayload { duration_ms, audio_data })
    }
}

impl VoiceStreamPayload {
    /// The wire form of a voice frame: stream, sequence, then audio.
    pub fn encode(&self) -> (r: Vec<u8>)
        ensures
            r@ == chunk_bytes(self.stream_id@, self.sequence, self.audio_frame@),
    {
        let mut out: Vec<u8> = Vec::new();
        append_bytes(&mut out, &self.stream_id);
        append_bytes(&mut out, &u32_to_be(self.sequence));
        append_bytes(&mut out, self.audio_frame.as_slice());
        out
    }

    /// Decodes a voice frame: at least stream and sequence number.
    pub fn decode(b: &[u8]) -> (r: Result<Self, DecodeError>)
        ensures
            r is Ok <==> b@.len() >= 20,
            r matches Ok(v) ==> b@ == chunk_bytes(v.stream_id@, v.sequence, v.audio_frame@),
    {
        if b.len() < 20 {
            return Err(DecodeError::Malformed);
        }
        let stream_id: [u8; 16] = copy_array::<16>(b, 0);
        let sequence = be_to_u32(b[16], b[17], b[18], b[19]);
        let audio_frame = tail_vec(b, 20);
        proof {
            lemma_be32_bytes(sequence, b@[16], b@[17], b@[18], b@[19]);
            assert(b@ =~= chunk_bytes(stream_id@, sequence, audio_frame@));
        }
        Ok(VoiceStreamPayload { stream_id, sequence, audio_frame })
    }
}


/// Byte string with a four-byte big-endian length.
pub open spec fn blob(b: Seq<u8>) -> Seq<u8> {
    be32(b.len() as u32) + b
}

/// The capability list: each capability as a length-prefixed UTF-8 string.
pub open spec fn caps_bytes(caps: Seq<String>) -> Seq<u8>
    decreases caps.len(),
{
    if caps.len() == 0 {
        Seq::empty()
    } else {
        caps_bytes(caps.drop_last()) + blob(encode_utf8(caps.last()@))
    }
}

/// Every capability's encoding fits a four-byte length.
pub open spec fn caps_fit(caps: Seq<String>) -> bool {
    forall|i: int| 0 <= i < caps.len() ==> encode_utf8((#[trigger] caps[i])@).len() <= u32::MAX
}

/// An announcement whose strings fit their four-byte lengths.
pub open spec fn discovery_fits(p: DiscoveryPayload) -> bool {
    encode_utf8(p.display_name@).len() <= u32::MAX && caps_fit(p.capabilities@)
}

/// Some announcement that fits is encoded as `b`.
pub open spec fn encodes_announcement(b: Seq<u8>) -> bool {
    exists|p: DiscoveryPayload| discovery_fits(p) && #[trigger] discovery_bytes(p) == b
}

/// The capability list splits into its first entry and the rest.
pub proof fn lemma_caps_front(s: Seq<String>)
    requires
        s.len() > 0,
    ensures
        caps_bytes(s) == blob(encode_utf8(s[0]@)) + caps_bytes(s.drop_first()),
    decreases s.len(),
{
    if s.len() == 1 {
        assert(s.drop_last() =~= Seq::<String>::empty());
        assert(s.drop_first() =~= Seq::<String>::empty());
        assert(caps_bytes(s.drop_last()) == Seq::<u8>::empty());
        assert(caps_bytes(s.drop_first()) == Seq::<u8>::empty());
        assert(s.last() == s[0]);
        assert(caps_bytes(s) == caps_bytes(s.drop_last()) + blob(encode_utf8(s.last()@)));
        assert(caps_bytes(s) =~= blob(encode_utf8(s[0]@)) + caps_bytes(s.drop_first()));
    } else {
        lemma_caps_front(s.drop_last());
        assert(s.drop_last().drop_first() =~= s.drop_first().drop_last());
        assert(s.drop_first().last() == s.last());
        assert(s.drop_last()[0] == s[0]);
        assert(caps_bytes(s) == caps_bytes(s.drop_last()) + blob(encode_utf8(s.last()@)));
        assert(caps_bytes(s.drop_first()) == caps_bytes(s.drop_first().drop_last()) + blob(encode_utf8(s.drop_first().last()@)));
        assert(caps_bytes(s) =~= blob(encode_utf8(s[0]@)) + caps_bytes(s.drop_first()));
    }
}

/// Where the remaining bytes hold a non-empty capability list, its first
/// entry is a length-prefixed string and the rest follows it.
#[verifier::rlimit(60)]
proof fn lemma_next_cap(b: Seq<u8>, pos: int, rest: Seq<String>)
    requires
        0 <= pos < b.len(),
        caps_fit(rest),
        caps_bytes(rest) == b.subrange(pos, b.len() as int),
    ensures
        rest.len() > 0,
        text_at(b, pos, rest[0]@),
        caps_fit(rest.drop_first()),
        caps_bytes(rest.drop_first()) == b.subrange(pos + 4 + encode_utf8(rest[0]@).len(), b.len() as int),
{
    if rest.len() == 0 {
        assert(b.subrange(pos, b.len() as int).len() == 0);
    }
    lemma_caps_front(rest);
    let e = encode_utf8(rest[0]@);
    let t = b.subrange(pos, b.len() as int);
    let head = blob(e);
    let tail = caps_bytes(rest.drop_first());
    assert(t == head + tail);
    assert(head.len() == 4 + e.len());
    assert(b.subrange(pos, pos + 4 + e.len()) =~= t.subrange(0, head.len() as int));
    assert(t.subrange(0, head.len() as int) =~= head);
    assert(b.subrange(pos + 4 + e.len(), b.len() as int) =~= t.subrange(head.len() as int, t.len() as int));
    assert(t.subrange(head.len() as int, t.len() as int) =~= tail);
    assert(caps_fit(rest.drop_first())) by {
        assert forall|i: int| 0 <= i < rest.drop_first().len() implies encode_utf8((#[trigger] rest.drop_first()[i])@).len() <= u32::MAX by {
            assert(rest.drop_first()[i] == rest[i + 1]);
        }
    }
}

/// Discovery announcement: node identifier, listen port (two big-endian
/// bytes), gateway flag (0 or 1), display name, then the capabilities.
pub open spec fn discovery_bytes(p: DiscoveryPayload) -> Seq<u8> {
    p.node_id@ + seq![(p.listen_port / 256) as u8, (p.listen_port % 256) as u8, if p.has_internet { 1u8 } else { 0u8 }]
        + blob(encode_utf8(p.display_name@)) + caps_bytes(p.capabilities@)
}

fn push_text(out: &mut Vec<u8>, s: &String)
    requires
        encode_utf8(s@).len() <= u32::MAX,
    ensures
        final(out)@ == old(out)@ + blob(encode_utf8(s@)),
{
    let b = s.as_str().as_bytes();
    append_bytes(out, &u32_to_be(b.len() as u32));
    append_bytes(out, b);
    assert(final(out)@ =~= old(out)@ + blob(encode_utf8(s@)));
}

/// At `pos`, `b` holds the characters `c` as a length-prefixed string.
pub open spec fn text_at(b: Seq<u8>, pos: int, c: Seq<char>) -> bool {
    &&& 0 <= pos
    &&& encode_utf8(c).len() <= u32::MAX
    &&& pos + 4 + encode_utf8(c).len() <= b.len()
    &&& b.subrange(pos, pos + 4 + encode_utf8(c).len()) == blob(encode_utf8(c))
}

proof fn lemma_text_at(b: Seq<u8>, pos: int, c: Seq<char>)
    requires
        text_at(b, pos, c),
    ensures
        be32_value(b[pos], b[pos + 1], b[pos + 2], b[pos + 3]) == encode_utf8(c).len(),
        b.subrange(pos + 4, pos + 4 + encode_utf8(c).len()) == encode_utf8(c),
        valid_utf8(encode_utf8(c)),
{
    let e = encode_utf8(c);
    let w = b.subrange(pos, pos + 4 + e.len());
    lemma_be32_value(e.len() as u32);
    assert(b[pos] == w[0] && b[pos + 1] == w[1] && b[pos + 2] == w[2] && b[pos + 3] == w[3]);
    assert(b.subrange(pos + 4, pos + 4 + e.len()) =~= w.subrange(4, 4 + e.len() as int));
    assert(w.subrange(4, 4 + e.len() as int) =~= e);
    encode_utf8_valid_utf8(c);
}

fn read_text(b: &[u8], pos: usize) -> (r: Option<(String, usize)>)
    ensures
        r matches Some((s, p)) ==> pos <= p <= b@.len() && b@.subrange(pos as int, p as int) == blob(encode_utf8(s@))
            && p == pos + 4 + encode_utf8(s@).len(),
        forall|c: Seq<char>| #[trigger] text_at(b@, pos as int, c) ==> match r {
            Some((s, p)) => encode_utf8(s@) == encode_utf8(c) && p == pos + 4 + encode_utf8(c).len(),
            None => false,
        },
{
    if pos > b.len() || 4 > b.len() - pos {
        return None;
    }
    let n = be_to_u32(b[pos], b[pos + 1], b[pos + 2], b[pos + 3]);
    if n as usize > b.len() - pos - 4 {
        proof {
            assert forall|c: Seq<char>| #[trigger] text_at(b@, pos as int, c) implies false by {
                lemma_text_at(b@, pos as int, c);
            }
        }
        return None;
    }
    let end = pos + 4 + n as usize;
    let text = slice_to_vec(slice_subrange(b, pos + 4, end));
    let ghost bytes = text@;
    match utf8_string(text) {
        None => {
            proof {
                assert forall|c: Seq<char>| #[trigger] text_at(b@, pos as int, c) implies false by {
                    lemma_text_at(b@, pos as int, c);
                }
            }
            None
        },
        Some(s) => {
            proof {
                lemma_be32_bytes(n, b@[pos as int], b@[pos + 1], b@[pos + 2], b@[pos + 3]);
                assert(b@.subrange(pos as int, end as int) =~= blob(encode_utf8(s@)));
                assert forall|c: Seq<char>| #[trigger] text_at(b@, pos as int, c)
                    implies encode_utf8(s@) == encode_utf8(c) && end == pos + 4 + encode_utf8(c).len() by {
                    lemma_text_at(b@, pos as int, c);
                }
            }
            Some((s, end))
        },
    }
}

impl DiscoveryPayload {
    /// The wire form of the announcement.
    pub fn encode(&self) -> (r: Vec<u8>)
        requires
            encode_utf8(self.display_name@).len() <= u32::MAX,
            forall|i: int| 0 <= i < self.capabilities@.len() ==> encode_utf8((#[trigger] self.capabilities@[i])@).len() <= u32::MAX,
        ensures
            r@ == discovery_bytes(*self),
    {
        let mut out: Vec<u8> = Vec::new();
        append_bytes(&mut out, &self.node_id);
        out.push((self.listen_port / 256) as u8);
        out.push((self.listen_port % 256) as u8);
        out.push(if self.has_internet { 1u8 } else { 0u8 });
        push_text(&mut out, &self.display_name);
        let ghost head = out@;
        let mut i: usize = 0;
        while i < self.capabilities.len()
            invariant
                0 <= i <= self.capabilities@.len(),
                forall|j: int| 0 <= j < self.capabilities@.len() ==> encode_utf8((#[trigger] self.capabilities@[j])@).len() <= u32::MAX,
                out@ == head + caps_bytes(self.capabilities@.subrange(0, i as int)),
            decreases self.capabilities@.len() - i,
        {
            assert(self.capabilities@.subrange(0, i + 1).drop_last() =~= self.capabilities@.subrange(0, i as int));
            push_text(&mut out, &self.capabilities[i]);
            i = i + 1;
        }
        assert(self.capabilities@.subrange(0, self.capabilities@.len() as int) =~= self.capabilities@);
        assert(out@ =~= discovery_bytes(*self));
        out
    }

    /// Decodes an announcement; `None` when the bytes do not follow the
    /// layout. A decoded announcement encodes back to the same bytes.
    pub fn decode(b: &[u8]) -> (r: Option<Self>)
        ensures
            r matches Some(p) ==> discovery_bytes(p) == b@,
            encodes_announcement(b@) ==> r is Some,
    {
        let ghost enc = encodes_announcement(b@);
        let ghost w: DiscoveryPayload = choose|p: DiscoveryPayload| discovery_fits(p) && #[trigger] discovery_bytes(p) == b@;
        proof {
            if enc {
                let e = encode_utf8(w.display_name@);
                assert(b@ =~= w.node_id@ + seq![(w.listen_port / 256) as u8, (w.listen_port % 256) as u8,
                    if w.has_internet { 1u8 } else { 0u8 }] + blob(e) + caps_bytes(w.capabilities@));
                assert(b@[34] == if w.has_internet { 1u8 } else { 0u8 });
                assert(b@.subrange(35, 39 + e.len() as int) =~= blob(e));
                assert(text_at(b@, 35, w.display_name@));
                assert(b@.subrange(39 + e.len() as int, b@.len() as int) =~= caps_bytes(w.capabilities@));
            }
        }
        if b.len() < 35 || b[34] > 1 {
            return None;
        }
        let node_id: [u8; 32] = copy_array::<32>(b, 0);
        let listen_port: u16 = (b[32] as u16) * 256 + (b[33] as u16);
        let has_internet = b[34] == 1;
        let (display_name, mut pos) = match read_text(b, 35) {
            Some(x) => x,
            None => return None,
        };
        let mut capabilities: Vec<String> = Vec::new();
        while pos < b.len()
            invariant
                35 <= pos <= b@.len(),
                b@.subrange(35, pos as int) == blob(encode_utf8(display_name@)) + caps_bytes(capabilities@),
                enc == encodes_announcement(b@),
                enc ==> exists|rest: Seq<String>| caps_fit(rest)
                    && #[trigger] caps_bytes(rest) == b@.subrange(pos as int, b@.len() as int),
            decreases b@.len() - pos,
        {
            let ghost rest: Seq<String> = choose|rest: Seq<String>| caps_fit(rest)
                && #[trigger] caps_bytes(rest) == b@.subrange(pos as int, b@.len() as int);
            proof {
                if enc {
                    lemma_next_cap(b@, pos as int, rest);
                }
            }
            let (c, next) = match read_text(b, pos) {
                Some(x) => x,
                None => return None,
            };
            proof {
                if enc {
                    let e = encode_utf8(rest[0]@);
                    assert(next == pos + 4 + e.len());
                    assert(caps_bytes(rest.drop_first()) == b@.subrange(next as int, b@.len() as int));
                }
            }
            if next <= pos {
                return None;
            }
            proof {
                assert(b@.subrange(35, next as int) =~= b@.subrange(35, pos as int) + b@.subrange(pos as int, next as int));
                assert(capabilities@.push(c).drop_last() =~= capabilities@);
            }
            capabilities.push(c);
            pos = next;
        }
        let p = DiscoveryPayload { node_id, display_name, listen_port, capabilities, has_internet };
        proof {
            assert(b@.subrange(0, 32) =~= node_id@);
            assert((listen_port / 256) as u8 == b@[32] && (listen_port % 256) as u8 == b@[33]) by (nonlinear_arith)
                requires
                    listen_port == b@[32] * 256 + b@[33],
                    b@[33] < 256,
            {}
            assert(b@ =~= b@.subrange(0, 32) + seq![b@[32], b@[33], b@[34]] + b@.subrange(35, b@.len() as int));
            assert(discovery_bytes(p) =~= b@);
        }
        Some(p)
    }

    /// A discovery message (one hop, broadcast) carrying this announcement.
    pub fn to_message(&self) -> (r: MeshMessage)
        requires
            encode_utf8(self.display_name@).len() <= u32::MAX,
            forall|i: int| 0 <= i < self.capabilities@.len() ==> encode_utf8((#[trigger] self.capabilities@[i])@).len() <= u32::MAX,
        ensures
            r.msg_type == MessageType::Discovery,
            r.sender_id == self.node_id,
            r.ttl == 1,
            r.destination is None,
            r.payload@ == discovery_bytes(*self),
            r.signature is None,
    {
        MeshMessage::new(MessageType::Discovery, self.node_id, 1, None, self.encode())
    }

    /// The announcement a discovery message carries.
    pub fn from_message(msg: &MeshMessage) -> (r: Option<Self>)
        ensures
            r matches Some(p) ==> discovery_bytes(p) == msg.payload@,
            encodes_announcement(msg.payload@) ==> r is Some,
    {
        Self::decode(msg.payload.as_slice())
    }
}

impl MeshMessage {

    /// The bytes a signature covers: kind tag, sender, identifier, and the
    /// SHA-256 digest of the payload.
    pub fn signing_bytes(&self) -> (r: Vec<u8>)
        ensures
            r@ == seq![tag_of(self.msg_type)] + self.sender_id@ + self.msg_id@ + sha256_of(self.payload@),
    {
        let mut buf: Vec<u8> = Vec::new();
        buf.push(self.msg_type.tag());
        append_bytes(&mut buf, &self.sender_id);
        append_bytes(&mut buf, &self.msg_id);
        let digest = sha256(self.payload.as_slice());
        append_bytes(&mut buf, &digest);
        buf
    }

    /// A read receipt for message `original_msg_id`, direct to `dest`.
    pub fn read_receipt(sender_id: [u8; 32], dest: [u8; 32], original_msg_id: MessageId) -> (r: Self)
        ensures
            r.msg_type == MessageType::ReadReceipt,
            r.sender_id == sender_id,
            r.ttl == 10,
            r.destination == Some(dest),
            r.payload@ == original_msg_id@,
            r.signature is None,
    {
        Self::new(MessageType::ReadReceipt, sender_id, 10, Some(dest), slice_to_vec(&original_msg_id))
    }

    /// A message to group `group_name`: the group name as a length-prefixed
    /// string, then the content.
    pub fn group_message(sender_id: [u8; 32], group_name: &str, content: &str) -> (r: Self)
        requires
            encode_utf8(group_name@).len() <= u32::MAX,
        ensures
            r.msg_type == MessageType::GroupMessage,
            r.sender_id == sender_id,
            r.ttl == 10,
            r.destination is None,
            r.payload@ == blob(encode_utf8(group_name@)) + encode_utf8(content@),
            r.signature is None,
    {
        let name = group_name.as_bytes();
        let mut payload: Vec<u8> = Vec::new();
        append_bytes(&mut payload, &u32_to_be(name.len() as u32));
        append_bytes(&mut payload, name);
        append_bytes(&mut payload, content.as_bytes());
        Self::new(MessageType::GroupMessage, sender_id, 10, None, payload)
    }

    /// An announcement of joining group `group_name`.
    pub fn group_join(sender_id: [u8; 32], group_name: &str) -> (r: Self)
        ensures
            r.msg_type == MessageType::GroupJoin,
            r.sender_id == sender_id,
            r.ttl == 10,
            r.destination is None,
            r.payload@ == encode_utf8(group_name@),
            r.signature is None,
    {
        Self::new(MessageType::GroupJoin, sender_id, 10, None, slice_to_vec(group_name.as_bytes()))
    }

    /// An announcement of leaving group `group_name`.
    pub fn group_leave(sender_id: [u8; 32], group_name: &str) -> (r: Self)
        ensures
            r.msg_type == MessageType::GroupLeave,
            r.sender_id == sender_id,
            r.ttl == 10,
            r.destination is None,
            r.payload@ == encode_utf8(group_name@),
            r.signature is None,
    {
        Self::new(MessageType::GroupLeave, sender_id, 10, None, slice_to_vec(group_name.as_bytes()))
    }

    /// A message that disappears `ttl_seconds` after reading: the lifetime,
    /// then the text.
    pub fn disappearing(sender_id: [u8; 32], dest: Option<[u8; 32]>, text: &str, ttl_seconds: u32) -> (r: Self)
        ensures
            r.msg_type == MessageType::Disappearing,
            r.sender_id == sender_id,
            r.ttl == 10,
            r.destination == dest,
            r.payload@ == be32(ttl_seconds) + encode_utf8(text@),
            r.signature is None,
    {
        let mut payload: Vec<u8> = Vec::new();
        append_bytes(&mut payload, &u32_to_be(ttl_seconds));
        append_bytes(&mut payload, text.as_bytes());
        Self::new(MessageType::Disappearing, sender_id, 10, dest, payload)
    }
    /// A file offer to `dest`.
    pub fn file_offer(sender_id: [u8; 32], dest: [u8; 32], payload: &FileOfferPayload) -> (r: Self)
        ensures
            r.msg_type == MessageType::FileOffer,
            r.sender_id == sender_id,
            r.ttl == 10,
            r.destination == Some(dest),
            r.payload@ == offer_bytes(payload.file_id@, payload.size_bytes, payload.chunk_count, payload.sha256_hash@, payload.filename@),
            r.signature is None,
    {
        Self::new(MessageType::FileOffer, sender_id, 10, Some(dest), payload.encode())
    }

    /// A file chunk to `dest`.
    pub fn file_chunk(sender_id: [u8; 32], dest: [u8; 32], payload: &FileChunkPayload) -> (r: Self)
        ensures
            r.msg_type == MessageType::FileChunk,
            r.sender_id == sender_id,
            r.ttl == 10,
            r.destination == Some(dest),
            r.payload@ == chunk_bytes(payload.file_id@, payload.sequence, payload.data@),
            r.signature is None,
    {
        Self::new(MessageType::FileChunk, sender_id, 10, Some(dest), payload.encode())
    }

    /// An acceptance of file `file_id`, to its sender `dest`.
    pub fn file_accept(sender_id: [u8; 32], dest: [u8; 32], file_id: [u8; 16]) -> (r: Self)
        ensures
            r.msg_type == MessageType::FileAccept,
            r.sender_id == sender_id,
            r.ttl == 10,
            r.destination == Some(dest),
            r.payload@ == file_id@,
            r.signature is None,
    {
        Self::new(MessageType::FileAccept, sender_id, 10, Some(dest), slice_to_vec(&file_id))
    }

    /// A voice note, direct or broadcast.
    pub fn voice_note(sender_id: [u8; 32], dest: Option<[u8; 32]>, payload: &VoiceNotePayload) -> (r: Self)
        ensures
            r.msg_type == MessageType::Voice,
            r.sender_id == sender_id,
            r.ttl == 10,
            r.destination == dest,
            r.payload@ == voice_note_bytes(payload.duration_ms, payload.audio_data@),
            r.signature is None,
    {
        Self::new(MessageType::Voice, sender_id, 10, dest, payload.encode())
    }

    /// A live voice frame to `dest`, with the low TTL of 2.
    pub fn voice_stream(sender_id: [u8; 32], dest: [u8; 32], payload: &VoiceStreamPayload) -> (r: Self)
        ensures
            r.msg_type == MessageType::VoiceStream,
            r.sender_id == sender_id,
            r.ttl == 2,
            r.destination == Some(dest),
            r.payload@ == chunk_bytes(payload.stream_id@, payload.sequence, payload.audio_frame@),
            r.signature is None,
    {
        Self::new(MessageType::VoiceStream, sender_id, 2, Some(dest), payload.encode())
    }

    /// A call start signal to `dest`.
    pub fn call_start(sender_id: [u8; 32], dest: [u8; 32], payload: &CallControlPayload) -> (r: Self)
        ensures
            r.msg_type == MessageType::CallStart,
            r.sender_id == sender_id,
            r.ttl == 2,
            r.destination == Some(dest),
            r.payload@ == payload.stream_id@,
            r.signature is None,
    {
        Self::new(MessageType::CallStart, sender_id, 2, Some(dest), slice_to_vec(&payload.stream_id))
    }

    /// A call end signal to `dest`.
    pub fn call_end(sender_id: [u8; 32], dest: [u8; 32], payload: &CallControlPayload) -> (r: Self)
        ensures
            r.msg_type == MessageType::CallEnd,
            r.sender_id == sender_id,
            r.ttl == 2,
            r.destination == Some(dest),
            r.payload@ == payload.stream_id@,
            r.signature is None,
    {
        Self::new(MessageType::CallEnd, sender_id, 2, Some(dest), slice_to_vec(&payload.stream_id))
    }

    /// An SOS broadcast with the maximal TTL; `payload` is the encoded
    /// emergency text and location.
    pub fn sos(sender_id: [u8; 32], payload: Vec<u8>) -> (r: Self)
        ensures
            r.msg_type == MessageType::SOS,
            r.sender_id == sender_id,
            r.ttl == 255,
            r.destination is None,
            r.payload@ == payload@,
            r.signature is None,
    {
        Self::new(MessageType::SOS, sender_id, 255, None, payload)
    }

    /// A triage tag, broadcast with TTL 50; `payload` is the encoded tag.
    pub fn triage(sender_id: [u8; 32], payload: Vec<u8>) -> (r: Self)
        ensures
            r.msg_type == MessageType::Triage,
            r.sender_id == sender_id,
            r.ttl == 50,
            r.destination is None,
            r.payload@ == payload@,
            r.signature is None,
    {
        Self::new(MessageType::Triage, sender_id, 50, None, payload)
    }

    /// A resource request, broadcast with TTL 50; `payload` is the encoded request.
    pub fn resource_request(sender_id: [u8; 32], payload: Vec<u8>) -> (r: Self)
        ensures
            r.msg_type == MessageType::ResourceReq,
            r.sender_id == sender_id,
            r.ttl == 50,
            r.destination is None,
            r.payload@ == payload@,
            r.signature is None,
    {
        Self::new(MessageType::ResourceReq, sender_id, 50, None, payload)
    }

    /// A safety check-in, broadcast with TTL 50; `payload` is the encoded check-in.
    pub fn check_in(sender_id: [u8; 32], payload: Vec<u8>) -> (r: Self)
        ensures
            r.msg_type == MessageType::CheckIn,
            r.sender_id == sender_id,
            r.ttl == 50,
            r.destination is None,
            r.payload@ == payload@,
            r.signature is None,
    {
        Self::new(MessageType::CheckIn, sender_id, 50, None, payload)
    }

    /// A profile update broadcast with TTL 3; `payload` is the encoded profile.
    pub fn profile_update(sender_id: [u8; 32], payload: Vec<u8>) -> (r: Self)
        ensures
            r.msg_type == MessageType::ProfileUpdate,
            r.sender_id == sender_id,
            r.ttl == 3,
            r.destination is None,
            r.payload@ == payload@,
            r.signature is None,
    {
        Self::new(MessageType::ProfileUpdate, sender_id, 3, None, payload)
    }
}

} // verus!
