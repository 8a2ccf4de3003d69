use vstd::prelude::*;
use vstd::slice::{slice_subrange, slice_to_vec};
use crate::bytes::{append_bytes, bytes_eq};
use crate::message::{FileChunkPayload, FileOfferPayload, copy_offer, random_array};
use sha2::Digest;

verus! {

/// Size of every chunk but the last, in bytes.
pub const CHUNK_SIZE: usize = 65536;

/// Largest file that can be sent, in bytes.
pub const MAX_FILE_SIZE: u64 = 104857600;

/// The SHA-256 digest of a byte string.
pub uninterp spec fn sha256_of(data: Seq<u8>) -> Seq<u8>;

/// Relies on sha2's `Sha256::digest`: the 32-byte SHA-256 digest of `data`,
/// which depends on the bytes alone.
#[verifier::external_body]
pub(crate) fn sha256(data: &[u8]) -> (r: [u8; 32])
    ensures
        r@ == sha256_of(data@),
{
    sha2::Sha256::digest(data).into()
}

/// Number of chunks a file of `n` bytes is cut into: at least one.
pub open spec fn chunk_count_of(n: nat) -> nat {
    if n == 0 { 1 } else { ((n + CHUNK_SIZE - 1) / CHUNK_SIZE as int) as nat }
}

/// Chunk `i` of `data`: bytes `[i * CHUNK_SIZE, (i + 1) * CHUNK_SIZE)`,
/// cut at the end of the data.
pub open spec fn chunk_of(data: Seq<u8>, i: int) -> Seq<u8> {
    let start = i * CHUNK_SIZE;
    let end = if (i + 1) * CHUNK_SIZE <= data.len() { (i + 1) * CHUNK_SIZE } else { data.len() as int };
    data.subrange(start, end)
}

/// Why a transfer step failed.
#[derive(Debug, Clone, Copy, PartialEq, Eq, Structural)]
pub enum TransferError {
    /// The file is larger than `MAX_FILE_SIZE`.
    TooLarge,
    /// No transfer with this identifier is registered.
    NotFound,
    /// The chunk with this sequence number never arrived.
    MissingChunk(u32),
    /// The reassembled bytes do not hash to the advertised digest.
    HashMismatch,
}

/// An outgoing transfer.
#[derive(Debug)]
pub struct OutgoingTransfer {
    pub metadata: FileOfferPayload,
    pub dest: [u8; 32],
    pub chunks: Vec<Vec<u8>>,
    pub next_chunk: u32,
    pub accepted: bool,
}

/// An incoming transfer; `chunks` maps sequence numbers to data, one entry
/// per sequence number.
#[derive(Debug)]
pub struct IncomingTransfer {
    pub metadata: FileOfferPayload,
    pub sender_id: [u8; 32],
    pub chunks: Vec<(u32, Vec<u8>)>,
    pub accepted: bool,
    pub save_dir: String,
}

/// A verified, reassembled file, ready to be written to `save_dir/filename`.
#[derive(Debug)]
pub struct CompletedFile {
    pub save_dir: String,
    pub filename: String,
    pub data: Vec<u8>,
}

/// Index of the outgoing transfer with identifier `id`, or -1.
pub open spec fn find_out(s: Seq<OutgoingTransfer>, id: Seq<u8>) -> int
    decreases s.len(),
{
    if s.len() == 0 {
        -1
    } else if s.last().metadata.file_id@ == id {
        s.len() - 1
    } else {
        find_out(s.drop_last(), id)
    }
}

/// Index of the incoming transfer with identifier `id`, or -1.
pub open spec fn find_in(s: Seq<IncomingTransfer>, id: Seq<u8>) -> int
    decreases s.len(),
{
    if s.len() == 0 {
        -1
    } else if s.last().metadata.file_id@ == id {
        s.len() - 1
    } else {
        find_in(s.drop_last(), id)
    }
}

/// Index of the chunk with sequence number `q`, or -1.
pub open spec fn find_chunk(s: Seq<(u32, Vec<u8>)>, q: u32) -> int
    decreases s.len(),
{
    if s.len() == 0 {
        -1
    } else if s.last().0 == q {
        s.len() - 1
    } else {
        find_chunk(s.drop_last(), q)
    }
}

/// The chunk map after storing `data` under `q`: replaced if present, else added.
pub open spec fn chunks_with(s: Seq<(u32, Vec<u8>)>, q: u32, data: Vec<u8>) -> Seq<(u32, Vec<u8>)> {
    let i = find_chunk(s, q);
    if i >= 0 { s.update(i, (q, data)) } else { s.push((q, data)) }
}

/// Whether every sequence number below `k` has a chunk.
pub open spec fn has_chunks_below(s: Seq<(u32, Vec<u8>)>, k: nat) -> bool {
    forall|q: u32| q < k ==> find_chunk(s, q) >= 0
}

/// The data stored under sequence number `q`.
pub open spec fn chunk_data(s: Seq<(u32, Vec<u8>)>, q: u32) -> Seq<u8> {
    s[find_chunk(s, q)].1@
}

/// Every chunk that `data` is cut into is stored under its sequence number.
pub open spec fn holds_chunks_of(chunks: Seq<(u32, Vec<u8>)>, data: Seq<u8>) -> bool {
    forall|q: u32| q < chunk_count_of(data.len()) ==> #[trigger] find_chunk(chunks, q) >= 0
        && chunk_data(chunks, q) == chunk_of(data, q as int)
}

/// The data of chunks `0 .. k` in sequence order.
pub open spec fn assembled(s: Seq<(u32, Vec<u8>)>, k: nat) -> Seq<u8>
    decreases k,
{
    if k == 0 {
        Seq::empty()
    } else {
        assembled(s, (k - 1) as nat) + chunk_data(s, (k - 1) as u32)
    }
}

/// Progress of a transfer in percent: received over expected, at most 100.
pub open spec fn percent_of(received: nat, count: nat) -> nat {
    if count == 0 || received * 100 / count >= 100 { 100 } else { received * 100 / count }
}

proof fn lemma_find_out(s: Seq<OutgoingTransfer>, id: Seq<u8>)
    ensures
        -1 <= find_out(s, id) < s.len(),
        find_out(s, id) >= 0 ==> s[find_out(s, id)].metadata.file_id@ == id,
        find_out(s, id) < 0 ==> forall|k: int| 0 <= k < s.len() ==> (#[trigger] s[k]).metadata.file_id@ != id,
    decreases s.len(),
{
    if s.len() > 0 {
        lemma_find_out(s.drop_last(), id);
        if find_out(s, id) < 0 {
            assert forall|k: int| 0 <= k < s.len() implies (#[trigger] s[k]).metadata.file_id@ != id by {
                if k < s.len() - 1 {
                    assert(s.drop_last()[k] == s[k]);
                }
            }
        }
    }
}

proof fn lemma_find_in(s: Seq<IncomingTransfer>, id: Seq<u8>)
    ensures
        -1 <= find_in(s, id) < s.len(),
        find_in(s, id) >= 0 ==> s[find_in(s, id)].metadata.file_id@ == id,
        find_in(s, id) < 0 ==> forall|k: int| 0 <= k < s.len() ==> (#[trigger] s[k]).metadata.file_id@ != id,
    decreases s.len(),
{
    if s.len() > 0 {
        lemma_find_in(s.drop_last(), id);
        if find_in(s, id) < 0 {
            assert forall|k: int| 0 <= k < s.len() implies (#[trigger] s[k]).metadata.file_id@ != id by {
                if k < s.len() - 1 {
                    assert(s.drop_last()[k] == s[k]);
                }
            }
        }
    }
}

/// No two outgoing transfers share an identifier, and each holds as many
/// chunks as its metadata counts.
pub open spec fn outgoing_wf(s: Seq<OutgoingTransfer>) -> bool {
    &&& forall|i: int, j: int| 0 <= i < s.len() && 0 <= j < s.len() && i != j
        ==> (#[trigger] s[i]).metadata.file_id@ != (#[trigger] s[j]).metadata.file_id@
    &&& forall|i: int| 0 <= i < s.len() ==> (#[trigger] s[i]).chunks@.len() == s[i].metadata.chunk_count
}

/// No two incoming transfers share an identifier.
pub open spec fn incoming_wf(s: Seq<IncomingTransfer>) -> bool {
    forall|i: int, j: int| 0 <= i < s.len() && 0 <= j < s.len() && i != j
        ==> (#[trigger] s[i]).metadata.file_id@ != (#[trigger] s[j]).metadata.file_id@
}

proof fn lemma_out_update(s: Seq<OutgoingTransfer>, i: int, t: OutgoingTransfer)
    requires
        outgoing_wf(s),
        0 <= i < s.len(),
        t.metadata.file_id@ == s[i].metadata.file_id@,
        t.chunks@.len() == t.metadata.chunk_count,
    ensures
        outgoing_wf(s.update(i, t)),
{
    let u = s.update(i, t);
    assert forall|a: int, b: int| 0 <= a < u.len() && 0 <= b < u.len() && a != b
        implies (#[trigger] u[a]).metadata.file_id@ != (#[trigger] u[b]).metadata.file_id@ by {
        assert(u[a].metadata.file_id@ == s[a].metadata.file_id@);
        assert(u[b].metadata.file_id@ == s[b].metadata.file_id@);
    }
}

proof fn lemma_out_push(s: Seq<OutgoingTransfer>, t: OutgoingTransfer)
    requires
        outgoing_wf(s),
        find_out(s, t.metadata.file_id@) < 0,
        t.chunks@.len() == t.metadata.chunk_count,
    ensures
        outgoing_wf(s.push(t)),
{
    lemma_find_out(s, t.metadata.file_id@);
    let u = s.push(t);
    assert forall|a: int, b: int| 0 <= a < u.len() && 0 <= b < u.len() && a != b
        implies (#[trigger] u[a]).metadata.file_id@ != (#[trigger] u[b]).metadata.file_id@ by {
        if a < s.len() && b < s.len() {
            assert(u[a] == s[a] && u[b] == s[b]);
        } else if a < s.len() {
            assert(u[a] == s[a]);
        } else {
            assert(u[b] == s[b]);
        }
    }
    assert forall|a: int| 0 <= a < u.len() implies (#[trigger] u[a]).chunks@.len() == u[a].metadata.chunk_count by {
        if a < s.len() {
            assert(u[a] == s[a]);
        }
    }
}

proof fn lemma_out_remove(s: Seq<OutgoingTransfer>, i: int)
    requires
        outgoing_wf(s),
        0 <= i < s.len(),
    ensures
        outgoing_wf(s.remove(i)),
        find_out(s.remove(i), s[i].metadata.file_id@) < 0,
{
    let u = s.remove(i);
    let id = s[i].metadata.file_id@;
    assert forall|a: int| 0 <= a < u.len() implies (#[trigger] u[a]) == s[if a < i { a } else { a + 1 }] by {}
    assert forall|a: int, b: int| 0 <= a < u.len() && 0 <= b < u.len() && a != b
        implies (#[trigger] u[a]).metadata.file_id@ != (#[trigger] u[b]).metadata.file_id@ by {
        assert(u[a] == s[if a < i { a } else { a + 1 }]);
        assert(u[b] == s[if b < i { b } else { b + 1 }]);
    }
    assert forall|a: int| 0 <= a < u.len() implies (#[trigger] u[a]).chunks@.len() == u[a].metadata.chunk_count by {
        assert(u[a] == s[if a < i { a } else { a + 1 }]);
    }
    lemma_find_out(u, id);
    if find_out(u, id) >= 0 {
        let a = find_out(u, id);
        assert(u[a] == s[if a < i { a } else { a + 1 }]);
    }
}

proof fn lemma_in_update(s: Seq<IncomingTransfer>, i: int, t: IncomingTransfer)
    requires
        incoming_wf(s),
        0 <= i < s.len(),
        t.metadata.file_id@ == s[i].metadata.file_id@,
    ensures
        incoming_wf(s.update(i, t)),
{
    let u = s.update(i, t);
    assert forall|a: int, b: int| 0 <= a < u.len() && 0 <= b < u.len() && a != b
        implies (#[trigger] u[a]).metadata.file_id@ != (#[trigger] u[b]).metadata.file_id@ by {
        assert(u[a].metadata.file_id@ == s[a].metadata.file_id@);
        assert(u[b].metadata.file_id@ == s[b].metadata.file_id@);
    }
}

proof fn lemma_in_push(s: Seq<IncomingTransfer>, t: IncomingTransfer)
    requires
        incoming_wf(s),
        find_in(s, t.metadata.file_id@) < 0,
    ensures
        incoming_wf(s.push(t)),
{
    lemma_find_in(s, t.metadata.file_id@);
    let u = s.push(t);
    assert forall|a: int, b: int| 0 <= a < u.len() && 0 <= b < u.len() && a != b
        implies (#[trigger] u[a]).metadata.file_id@ != (#[trigger] u[b]).metadata.file_id@ by {
        if a < s.len() && b < s.len() {
            assert(u[a] == s[a] && u[b] == s[b]);
        } else if a < s.len() {
            assert(u[a] == s[a]);
        } else {
            assert(u[b] == s[b]);
        }
    }
}

proof fn lemma_in_remove(s: Seq<IncomingTransfer>, i: int)
    requires
        incoming_wf(s),
        0 <= i < s.len(),
    ensures
        incoming_wf(s.remove(i)),
        find_in(s.remove(i), s[i].metadata.file_id@) < 0,
{
    let u = s.remove(i);
    let id = s[i].metadata.file_id@;
    assert forall|a: int, b: int| 0 <= a < u.len() && 0 <= b < u.len() && a != b
        implies (#[trigger] u[a]).metadata.file_id@ != (#[trigger] u[b]).metadata.file_id@ by {
        assert(u[a] == s[if a < i { a } else { a + 1 }]);
        assert(u[b] == s[if b < i { b } else { b + 1 }]);
    }
    lemma_find_in(u, id);
    if find_in(u, id) >= 0 {
        let a = find_in(u, id);
        assert(u[a] == s[if a < i { a } else { a + 1 }]);
    }
}

proof fn lemma_find_chunk(s: Seq<(u32, Vec<u8>)>, q: u32)
    ensures
        -1 <= find_chunk(s, q) < s.len(),
        find_chunk(s, q) >= 0 ==> s[find_chunk(s, q)].0 == q,
        find_chunk(s, q) < 0 ==> forall|i: int| 0 <= i < s.len() ==> (#[trigger] s[i]).0 != q,
    decreases s.len(),
{
    if s.len() > 0 {
        lemma_find_chunk(s.drop_last(), q);
        if find_chunk(s, q) < 0 {
            assert forall|i: int| 0 <= i < s.len() implies (#[trigger] s[i]).0 != q by {
                if i < s.len() - 1 {
                    assert(s.drop_last()[i] == s[i]);
                }
            }
        }
    }
}

fn find_out_exec(s: &Vec<OutgoingTransfer>, id: &[u8; 16]) -> (r: Option<usize>)
    ensures
        match r {
            Some(i) => find_out(s@, id@) == i && i < s@.len(),
            None => find_out(s@, id@) == -1,
        },
{
    proof {
        lemma_find_out(s@, id@);
    }
    let mut i: usize = s.len();
    assert(s@.subrange(0, i as int) =~= s@);
    while i > 0
        invariant
            0 <= i <= s@.len(),
            find_out(s@, id@) == find_out(s@.subrange(0, i as int), id@),
        decreases i,
    {
        assert(s@.subrange(0, i as int).drop_last() =~= s@.subrange(0, i - 1));
        if bytes_eq(&s[i - 1].metadata.file_id, id) {
            return Some(i - 1);
        }
        i = i - 1;
    }
    None
}

fn find_in_exec(s: &Vec<IncomingTransfer>, id: &[u8; 16]) -> (r: Option<usize>)
    ensures
        match r {
            Some(i) => find_in(s@, id@) == i && i < s@.len(),
            None => find_in(s@, id@) == -1,
        },
{
    proof {
        lemma_find_in(s@, id@);
    }
    let mut i: usize = s.len();
    assert(s@.subrange(0, i as int) =~= s@);
    while i > 0
        invariant
            0 <= i <= s@.len(),
            find_in(s@, id@) == find_in(s@.subrange(0, i as int), id@),
        decreases i,
    {
        assert(s@.subrange(0, i as int).drop_last() =~= s@.subrange(0, i - 1));
        if bytes_eq(&s[i - 1].metadata.file_id, id) {
            return Some(i - 1);
        }
        i = i - 1;
    }
    None
}

fn find_chunk_exec(s: &Vec<(u32, Vec<u8>)>, q: u32) -> (r: Option<usize>)
    ensures
        match r {
            Some(i) => find_chunk(s@, q) == i && i < s@.len(),
            None => find_chunk(s@, q) == -1,
        },
{
    proof {
        lemma_find_chunk(s@, q);
    }
    let mut i: usize = s.len();
    assert(s@.subrange(0, i as int) =~= s@);
    while i > 0
        invariant
            0 <= i <= s@.len(),
            find_chunk(s@, q) == find_chunk(s@.subrange(0, i as int), q),
        decreases i,
    {
        assert(s@.subrange(0, i as int).drop_last() =~= s@.subrange(0, i - 1));
        if s[i - 1].0 == q {
            return Some(i - 1);
        }
        i = i - 1;
    }
    None
}

/// Cuts `data` into chunks of `CHUNK_SIZE` bytes; empty data gives one
/// empty chunk.
pub fn split_chunks(data: &[u8]) -> (r: Vec<Vec<u8>>)
    requires
        data@.len() <= MAX_FILE_SIZE,
    ensures
        r@.len() == chunk_count_of(data@.len()),
        forall|i: int| 0 <= i < r@.len() ==> (#[trigger] r@[i])@ == chunk_of(data@, i),
{
    let n = data.len();
    let mut out: Vec<Vec<u8>> = Vec::new();
    if n == 0 {
        out.push(Vec::new());
        assert(out@[0]@ =~= chunk_of(data@, 0));
        return out;
    }
    let mut pos: usize = 0;
    while pos < n
        invariant
            n == data@.len(),
            n <= MAX_FILE_SIZE,
            pos == out@.len() * CHUNK_SIZE,
            pos <= n + CHUNK_SIZE,
            out@.len() * CHUNK_SIZE < n + CHUNK_SIZE,
            forall|i: int| 0 <= i < out@.len() ==> (#[trigger] out@[i])@ == chunk_of(data@, i),
        decreases n + CHUNK_SIZE - pos,
    {
        let end = if n - pos >= CHUNK_SIZE { pos + CHUNK_SIZE } else { n };
        let ghost k = out@.len();
        out.push(slice_to_vec(slice_subrange(data, pos, end)));
        assert(out@[k as int]@ == chunk_of(data@, k as int));
        pos = pos + CHUNK_SIZE;
    }
    proof {
        let k = out@.len();
        assert(k * CHUNK_SIZE >= n);
        assert((k - 1) * CHUNK_SIZE < n);
        assert(chunk_count_of(n as nat) == k) by {
            assert(((n + CHUNK_SIZE - 1) / CHUNK_SIZE as int) == k) by (nonlinear_arith)
                requires
                    k * 65536 >= n,
                    (k - 1) * 65536 < n,
                    n > 0,
            {}
        }
    }
    out
}

/// Tracks the transfers in progress, in both directions.
pub struct FileTransferManager {
    outgoing: Vec<OutgoingTransfer>,
    incoming: Vec<IncomingTransfer>,
    save_dir: String,
}

/// The manager's state.
pub struct TransferView {
    pub outgoing: Seq<OutgoingTransfer>,
    pub incoming: Seq<IncomingTransfer>,
    pub save_dir: Seq<char>,
}

impl View for FileTransferManager {
    type V = TransferView;

    closed spec fn view(&self) -> TransferView {
        TransferView { outgoing: self.outgoing@, incoming: self.incoming@, save_dir: self.save_dir@ }
    }
}


/// `new` is `old` with the element at `j` replaced, or with one element
/// pushed when `j == old.len()`.
pub open spec fn placed_at<T>(old: Seq<T>, new: Seq<T>, j: int) -> bool {
    &&& 0 <= j <= old.len()
    &&& new.len() == if j == old.len() { old.len() + 1 } else { old.len() + 0 }
    &&& forall|k: int| 0 <= k < old.len() && k != j ==> new[k] == old[k]
}

/// The slot where a record with identifier `id` goes: its current index,
/// or the end.
pub open spec fn slot_out(s: Seq<OutgoingTransfer>, id: Seq<u8>) -> int {
    if find_out(s, id) >= 0 { find_out(s, id) } else { s.len() as int }
}

pub open spec fn slot_in(s: Seq<IncomingTransfer>, id: Seq<u8>) -> int {
    if find_in(s, id) >= 0 { find_in(s, id) } else { s.len() as int }
}

/// The first sequence number below `count` without a chunk, if any.
pub open spec fn first_missing(s: Seq<(u32, Vec<u8>)>, q: u32) -> bool {
    &&& find_chunk(s, q) < 0
    &&& forall|p: u32| p < q ==> find_chunk(s, p) >= 0
}

fn replace_out(v: &mut Vec<OutgoingTransfer>, i: usize, t: OutgoingTransfer)
    requires
        i < old(v)@.len(),
    ensures
        final(v)@ == old(v)@.update(i as int, t),
{
    let _ = v.remove(i);
    v.insert(i, t);
    assert(final(v)@ =~= old(v)@.update(i as int, t));
}

fn replace_in(v: &mut Vec<IncomingTransfer>, i: usize, t: IncomingTransfer)
    requires
        i < old(v)@.len(),
    ensures
        final(v)@ == old(v)@.update(i as int, t),
{
    let _ = v.remove(i);
    v.insert(i, t);
    assert(final(v)@ =~= old(v)@.update(i as int, t));
}

fn store_chunk(chunks: &mut Vec<(u32, Vec<u8>)>, q: u32, data: Vec<u8>)
    ensures
        final(chunks)@ == chunks_with(old(chunks)@, q, data),
{
    proof {
        lemma_find_chunk(chunks@, q);
    }
    match find_chunk_exec(chunks, q) {
        Some(i) => {
            let _ = chunks.remove(i);
            chunks.insert(i, (q, data));
            assert(final(chunks)@ =~= old(chunks)@.update(i as int, (q, data)));
        },
        None => {
            chunks.push((q, data));
        },
    }
}

impl FileTransferManager {
    /// Identifiers are unique in each direction and every outgoing transfer
    /// holds all its chunks.
    pub open spec fn wf(&self) -> bool {
        outgoing_wf(self@.outgoing) && incoming_wf(self@.incoming)
    }

    /// A manager with no transfers, saving received files under `save_dir`.
    pub fn new(save_dir: String) -> (r: Self)
        ensures
            r.wf(),
            r@.outgoing.len() == 0,
            r@.incoming.len() == 0,
            r@.save_dir == save_dir@,
    {
        FileTransferManager { outgoing: Vec::new(), incoming: Vec::new(), save_dir }
    }

    /// Registers `data`, the content of file `filename`, as an outgoing
    /// transfer to `dest` under a fresh random identifier, not yet accepted,
    /// and returns the metadata to offer. Files over `MAX_FILE_SIZE` are
    /// refused.
    pub fn prepare_send(&mut self, dest: [u8; 32], filename: &str, data: Vec<u8>) -> (r: Result<FileOfferPayload, TransferError>)
        requires
            old(self).wf(),
        ensures
            final(self).wf(),
            data@.len() > MAX_FILE_SIZE <==> r == Err::<FileOfferPayload, TransferError>(TransferError::TooLarge),
            data@.len() <= MAX_FILE_SIZE ==> r is Ok,
            r is Err ==> final(self)@ == old(self)@,
            r matches Ok(m) ==> {
                &&& m.filename@ == filename@
                &&& m.size_bytes == data@.len()
                &&& m.chunk_count == chunk_count_of(data@.len())
                &&& m.sha256_hash@ == sha256_of(data@)
                &&& final(self)@.incoming == old(self)@.incoming
                &&& final(self)@.save_dir == old(self)@.save_dir
                &&& placed_at(old(self)@.outgoing, final(self)@.outgoing, slot_out(old(self)@.outgoing, m.file_id@))
                &&& {
                    let t = final(self)@.outgoing[slot_out(old(self)@.outgoing, m.file_id@)];
                    &&& t.metadata.file_id == m.file_id
                    &&& t.metadata.filename@ == filename@
                    &&& t.metadata.size_bytes == m.size_bytes
                    &&& t.metadata.chunk_count == m.chunk_count
                    &&& t.metadata.sha256_hash == m.sha256_hash
                    &&& t.dest == dest
                    &&& t.next_chunk == 0
                    &&& !t.accepted
                    &&& t.chunks@.len() == chunk_count_of(data@.len())
                    &&& forall|i: int| 0 <= i < t.chunks@.len() ==> (#[trigger] t.chunks@[i])@ == chunk_of(data@, i)
                }
            },
    {
        if data.len() as u64 > MAX_FILE_SIZE {
            return Err(TransferError::TooLarge);
        }
        let file_id: [u8; 16] = random_array::<16>();
        let hash = sha256(data.as_slice());
        let chunks = split_chunks(data.as_slice());
        let chunk_count = chunks.len() as u32;
        let metadata = FileOfferPayload {
            file_id,
            filename: String::from_str(filename),
            size_bytes: data.len() as u64,
            chunk_count,
            sha256_hash: hash,
        };
        let record = OutgoingTransfer {
            metadata: copy_offer(&metadata),
            dest,
            chunks,
            next_chunk: 0,
            accepted: false,
        };
        proof {
            lemma_find_out(self.outgoing@, file_id@);
            assert(chunk_count_of(data@.len()) <= 1601) by {
                let n = data@.len() as int;
                if n > 0 {
                    assert((n + 65535) / 65536 <= 1601) by (nonlinear_arith)
                        requires
                            0 < n <= 104857600,
                    {}
                }
            }
        }
        match find_out_exec(&self.outgoing, &file_id) {
            Some(i) => {
                proof {
                    lemma_out_update(self.outgoing@, i as int, record);
                }
                replace_out(&mut self.outgoing, i, record);
            },
            None => {
                proof {
                    lemma_out_push(self.outgoing@, record);
                }
                self.outgoing.push(record);
            },
        }
        Ok(metadata)
    }

    /// Marks an outgoing transfer accepted; false when it is unknown.
    pub fn mark_accepted(&mut self, file_id: &[u8; 16]) -> (r: bool)
        requires
            old(self).wf(),
        ensures
            final(self).wf(),
            r == (find_out(old(self)@.outgoing, file_id@) >= 0),
            r ==> final(self)@ == (TransferView {
                outgoing: old(self)@.outgoing.update(
                    find_out(old(self)@.outgoing, file_id@),
                    OutgoingTransfer { accepted: true, ..old(self)@.outgoing[find_out(old(self)@.outgoing, file_id@)] },
                ),
                ..old(self)@
            }),
            !r ==> final(self)@ == old(self)@,
    {
        match find_out_exec(&self.outgoing, file_id) {
            None => false,
            Some(i) => {
                let mut t = self.outgoing.remove(i);
                t.accepted = true;
                self.outgoing.insert(i, t);
                assert(self.outgoing@ =~= old(self).outgoing@.update(i as int, t));
                proof {
                    lemma_out_update(old(self).outgoing@, i as int, t);
                }
                true
            },
        }
    }

    /// The next chunk of an accepted outgoing transfer, advancing its
    /// cursor; `None` when the transfer is unknown, not accepted, or done.
    pub fn next_chunk(&mut self, file_id: &[u8; 16]) -> (r: Option<FileChunkPayload>)
        requires
            old(self).wf(),
        ensures
            final(self).wf(),
            ({
                let i = find_out(old(self)@.outgoing, file_id@);
                let t = old(self)@.outgoing[i];
                let ready = i >= 0 && t.accepted && t.next_chunk < t.metadata.chunk_count;
                &&& ready <==> r is Some
                &&& !ready ==> final(self)@ == old(self)@
                &&& r matches Some(c) ==> {
                    &&& c.file_id == *file_id
                    &&& c.sequence == t.next_chunk
                    &&& c.data@ == t.chunks@[t.next_chunk as int]@
                    &&& final(self)@ == (TransferView {
                        outgoing: old(self)@.outgoing.update(i, OutgoingTransfer { next_chunk: (t.next_chunk + 1) as u32, ..t }),
                        ..old(self)@
                    })
                }
            }),
    {
        proof {
            lemma_find_out(self.outgoing@, file_id@);
        }
        let i = match find_out_exec(&self.outgoing, file_id) {
            None => return None,
            Some(i) => i,
        };
        let t = &self.outgoing[i];
        if !t.accepted || t.next_chunk >= t.metadata.chunk_count || t.next_chunk as usize >= t.chunks.len() {
            return None;
        }
        let seq = t.next_chunk;
        let data = slice_to_vec(t.chunks[seq as usize].as_slice());
        let mut t = self.outgoing.remove(i);
        t.next_chunk = seq + 1;
        self.outgoing.insert(i, t);
        assert(self.outgoing@ =~= old(self).outgoing@.update(i as int, t));
        proof {
            lemma_out_update(old(self).outgoing@, i as int, t);
        }
        Some(FileChunkPayload { file_id: *file_id, sequence: seq, data })
    }

    /// Whether every chunk of an outgoing transfer went out; true for an
    /// unknown transfer.
    pub fn is_outgoing_complete(&self, file_id: &[u8; 16]) -> (r: bool)
        ensures
            r == (find_out(self@.outgoing, file_id@) < 0 || self@.outgoing[find_out(self@.outgoing, file_id@)].next_chunk
                >= self@.outgoing[find_out(self@.outgoing, file_id@)].metadata.chunk_count),
    {
        match find_out_exec(&self.outgoing, file_id) {
            None => true,
            Some(i) => self.outgoing[i].next_chunk >= self.outgoing[i].metadata.chunk_count,
        }
    }

    /// The destination of an outgoing transfer.
    pub fn outgoing_dest(&self, file_id: &[u8; 16]) -> (r: Option<[u8; 32]>)
        ensures
            r == if find_out(self@.outgoing, file_id@) >= 0 {
                Some(self@.outgoing[find_out(self@.outgoing, file_id@)].dest)
            } else {
                None::<[u8; 32]>
            },
    {
        match find_out_exec(&self.outgoing, file_id) {
            None => None,
            Some(i) => Some(self.outgoing[i].dest),
        }
    }

    /// Forgets an outgoing transfer.
    pub fn remove_outgoing(&mut self, file_id: &[u8; 16])
        requires
            old(self).wf(),
        ensures
            final(self).wf(),
            find_out(final(self)@.outgoing, file_id@) < 0,
            final(self)@ == (TransferView {
                outgoing: if find_out(old(self)@.outgoing, file_id@) >= 0 {
                    old(self)@.outgoing.remove(find_out(old(self)@.outgoing, file_id@))
                } else {
                    old(self)@.outgoing
                },
                ..old(self)@
            }),
    {
        match find_out_exec(&self.outgoing, file_id) {
            None => {},
            Some(i) => {
                proof {
                    lemma_find_out(self.outgoing@, file_id@);
                    lemma_out_remove(self.outgoing@, i as int);
                }
                let _ = self.outgoing.remove(i);
            },
        }
    }

    /// Registers an offered incoming transfer from `sender_id`, not yet
    /// accepted, replacing any with the same identifier.
    pub fn register_incoming(&mut self, metadata: FileOfferPayload, sender_id: [u8; 32])
        requires
            old(self).wf(),
        ensures
            final(self).wf(),
            final(self)@.outgoing == old(self)@.outgoing,
            final(self)@.save_dir == old(self)@.save_dir,
            placed_at(old(self)@.incoming, final(self)@.incoming, slot_in(old(self)@.incoming, metadata.file_id@)),
            ({
                let t = final(self)@.incoming[slot_in(old(self)@.incoming, metadata.file_id@)];
                &&& t.metadata == metadata
                &&& t.sender_id == sender_id
                &&& t.chunks@.len() == 0
                &&& !t.accepted
                &&& t.save_dir@ == old(self)@.save_dir
            }),
    {
        let id = metadata.file_id;
        let record = IncomingTransfer {
            metadata,
            sender_id,
            chunks: Vec::new(),
            accepted: false,
            save_dir: self.save_dir.clone(),
        };
        proof {
            lemma_find_in(self.incoming@, id@);
        }
        match find_in_exec(&self.incoming, &id) {
            Some(i) => {
                proof {
                    lemma_in_update(self.incoming@, i as int, record);
                }
                replace_in(&mut self.incoming, i, record);
            },
            None => {
                proof {
                    lemma_in_push(self.incoming@, record);
                }
                self.incoming.push(record);
            },
        }
    }

    /// Accepts an incoming transfer and returns its sender, to whom the
    /// acceptance goes; `None` when unknown.
    pub fn accept_incoming(&mut self, file_id: &[u8; 16]) -> (r: Option<[u8; 32]>)
        requires
            old(self).wf(),
        ensures
            final(self).wf(),
            ({
                let i = find_in(old(self)@.incoming, file_id@);
                &&& i >= 0 <==> r is Some
                &&& i < 0 ==> final(self)@ == old(self)@
                &&& r matches Some(s) ==> {
                    &&& s == old(self)@.incoming[i].sender_id
                    &&& final(self)@ == (TransferView {
                        incoming: old(self)@.incoming.update(i, IncomingTransfer { accepted: true, ..old(self)@.incoming[i] }),
                        ..old(self)@
                    })
                }
            }),
    {
        match find_in_exec(&self.incoming, file_id) {
            None => None,
            Some(i) => {
                let mut t = self.incoming.remove(i);
                t.accepted = true;
                let s = t.sender_id;
                self.incoming.insert(i, t);
                assert(self.incoming@ =~= old(self).incoming@.update(i as int, t));
                proof {
                    lemma_in_update(old(self).incoming@, i as int, t);
                }
                Some(s)
            },
        }
    }

    /// Stores a chunk of an accepted incoming transfer and returns the
    /// progress in percent, at most 100; `None` (and nothing stored) when the
    /// transfer is unknown or not yet accepted.
    pub fn receive_chunk(&mut self, file_id: &[u8; 16], sequence: u32, data: Vec<u8>) -> (r: Option<u8>)
        requires
            old(self).wf(),
        ensures
            final(self).wf(),
            ({
                let i = find_in(old(self)@.incoming, file_id@);
                let t = old(self)@.incoming[i];
                let ok = i >= 0 && t.accepted;
                &&& ok <==> r is Some
                &&& !ok ==> final(self)@ == old(self)@
                &&& r matches Some(p) ==> {
                    let c = chunks_with(t.chunks@, sequence, data);
                    &&& p == percent_of(c.len(), t.metadata.chunk_count as nat)
                    &&& final(self)@.outgoing == old(self)@.outgoing
                    &&& final(self)@.save_dir == old(self)@.save_dir
                    &&& final(self)@.incoming.len() == old(self)@.incoming.len()
                    &&& forall|k: int| 0 <= k < old(self)@.incoming.len() && k != i ==> final(self)@.incoming[k] == old(self)@.incoming[k]
                    &&& final(self)@.incoming[i].chunks@ == c
                    &&& final(self)@.incoming[i].metadata == t.metadata
                    &&& final(self)@.incoming[i].sender_id == t.sender_id
                    &&& final(self)@.incoming[i].accepted
                    &&& final(self)@.incoming[i].save_dir == t.save_dir
                }
            }),
    {
        proof {
            lemma_find_in(self.incoming@, file_id@);
        }
        let i = match find_in_exec(&self.incoming, file_id) {
            None => return None,
            Some(i) => i,
        };
        if !self.incoming[i].accepted {
            return None;
        }
        let mut t = self.incoming.remove(i);
        assert(t == old(self).incoming@[i as int]);
        store_chunk(&mut t.chunks, sequence, data);
        let received = t.chunks.len();
        let count = t.metadata.chunk_count;
        let pct: u8 = if count == 0 || received >= count as usize {
            100
        } else {
            let p = (received as u64 * 100) / (count as u64);
            assert(p < 100) by (nonlinear_arith)
                requires
                    p == (received * 100) / (count as int),
                    received < count,
            {}
            p as u8
        };
        proof {
            if count > 0 && received >= count {
                assert(received * 100 / (count as int) >= 100) by (nonlinear_arith)
                    requires
                        received >= count,
                        count > 0,
                {}
            }
        }
        self.incoming.insert(i, t);
        assert(self.incoming@ =~= old(self).incoming@.update(i as int, t));
        proof {
            lemma_in_update(old(self).incoming@, i as int, t);
        }
        Some(pct)
    }

    /// Whether as many chunks arrived as the transfer has; false when unknown.
    pub fn is_incoming_complete(&self, file_id: &[u8; 16]) -> (r: bool)
        ensures
            r == (find_in(self@.incoming, file_id@) >= 0
                && self@.incoming[find_in(self@.incoming, file_id@)].chunks@.len()
                >= self@.incoming[find_in(self@.incoming, file_id@)].metadata.chunk_count),
    {
        match find_in_exec(&self.incoming, file_id) {
            None => false,
            Some(i) => self.incoming[i].chunks.len() >= self.incoming[i].metadata.chunk_count as usize,
        }
    }

    /// The metadata of an incoming transfer.
    pub fn get_incoming_metadata(&self, file_id: &[u8; 16]) -> (r: Option<&FileOfferPayload>)
        ensures
            find_in(self@.incoming, file_id@) >= 0 <==> r is Some,
            r matches Some(m) ==> *m == self@.incoming[find_in(self@.incoming, file_id@)].metadata,
    {
        match find_in_exec(&self.incoming, file_id) {
            None => None,
            Some(i) => Some(&self.incoming[i].metadata),
        }
    }
}


impl FileTransferManager {
    /// Removes an incoming transfer and reassembles its chunks in sequence
    /// order. Fails when the transfer is unknown, a chunk is missing, or the
    /// bytes do not hash to the advertised digest; on success the bytes are
    /// ready to be written under the transfer's save directory.
    pub fn finalize_incoming(&mut self, file_id: &[u8; 16]) -> (r: Result<CompletedFile, TransferError>)
        requires
            old(self).wf(),
        ensures
            final(self).wf(),
            ({
                let i = find_in(old(self)@.incoming, file_id@);
                let t = old(self)@.incoming[i];
                let count = t.metadata.chunk_count as nat;
                &&& i < 0 <==> r == Err::<CompletedFile, TransferError>(TransferError::NotFound)
                &&& i < 0 ==> final(self)@ == old(self)@
                &&& i >= 0 ==> final(self)@ == (TransferView { incoming: old(self)@.incoming.remove(i), ..old(self)@ })
                &&& find_in(final(self)@.incoming, file_id@) < 0
                &&& i >= 0 ==> (!has_chunks_below(t.chunks@, count) <==> r matches Err(TransferError::MissingChunk(_)))
                &&& r matches Err(TransferError::MissingChunk(q)) ==> q < count && first_missing(t.chunks@, q)
                &&& i >= 0 ==> (r == Err::<CompletedFile, TransferError>(TransferError::HashMismatch) <==> (
                    has_chunks_below(t.chunks@, count)
                    && sha256_of(assembled(t.chunks@, count)) != t.metadata.sha256_hash@))
                &&& i >= 0 && has_chunks_below(t.chunks@, count)
                    && sha256_of(assembled(t.chunks@, count)) == t.metadata.sha256_hash@ ==> r is Ok
                &&& r matches Ok(f) ==> {
                    &&& f.data@ == assembled(t.chunks@, count)
                    &&& sha256_of(f.data@) == t.metadata.sha256_hash@
                    &&& f.filename@ == t.metadata.filename@
                    &&& f.save_dir@ == t.save_dir@
                }
            }),
    {
        let i = match find_in_exec(&self.incoming, file_id) {
            None => return Err(TransferError::NotFound),
            Some(i) => i,
        };
        proof {
            lemma_find_in(self.incoming@, file_id@);
            lemma_in_remove(self.incoming@, i as int);
        }
        let t = self.incoming.remove(i);
        assert(t == old(self)@.incoming[i as int]);
        assert(self@ == (TransferView { incoming: old(self)@.incoming.remove(i as int), ..old(self)@ }));
        let count = t.metadata.chunk_count;
        let mut data: Vec<u8> = Vec::new();
        let mut q: u32 = 0;
        while q < count
            invariant
                q <= count,
                count == t.metadata.chunk_count,
                self.wf(),
                find_in(self@.incoming, file_id@) < 0,
                find_in(old(self)@.incoming, file_id@) == i,
                i < old(self)@.incoming.len(),
                t == old(self)@.incoming[i as int],
                self@ == (TransferView { incoming: old(self)@.incoming.remove(i as int), ..old(self)@ }),
                data@ == assembled(t.chunks@, q as nat),
                forall|p: u32| p < q ==> find_chunk(t.chunks@, p) >= 0,
            decreases count - q,
        {
            proof {
                lemma_find_chunk(t.chunks@, q);
            }
            match find_chunk_exec(&t.chunks, q) {
                None => {
                    assert(!has_chunks_below(t.chunks@, count as nat));
                    assert(first_missing(t.chunks@, q));
                    return Err(TransferError::MissingChunk(q));
                },
                Some(j) => {
                    append_bytes(&mut data, t.chunks[j].1.as_slice());
                },
            }
            q = q + 1;
        }
        let h = sha256(data.as_slice());
        if !bytes_eq(&h, &t.metadata.sha256_hash) {
            return Err(TransferError::HashMismatch);
        }
        Ok(CompletedFile { save_dir: t.save_dir, filename: t.metadata.filename, data })
    }
}

proof fn lemma_assembled_prefix(data: Seq<u8>, chunks: Seq<(u32, Vec<u8>)>, k: nat)
    requires
        data.len() <= MAX_FILE_SIZE,
        k <= chunk_count_of(data.len()),
        holds_chunks_of(chunks, data),
    ensures
        assembled(chunks, k) == data.subrange(0, if k * CHUNK_SIZE <= data.len() { k * CHUNK_SIZE } else { data.len() as int }),
    decreases k,
{
    let n = data.len() as int;
    let c = chunk_count_of(data.len()) as int;
    if k > 0 {
        lemma_assembled_prefix(data, chunks, (k - 1) as nat);
        let q = (k - 1) as u32;
        assert(find_chunk(chunks, q) >= 0);
        assert(chunk_data(chunks, q) == chunk_of(data, q as int));
        assert((k - 1) * CHUNK_SIZE <= n) by {
            if n > 0 {
                assert((k - 1) * 65536 < n) by (nonlinear_arith)
                    requires
                        k <= c,
                        c == (n + 65535) / 65536,
                        n > 0,
                {}
            } else {
                assert(c == 1);
            }
        }
        let end = if k * CHUNK_SIZE <= n { k * CHUNK_SIZE } else { n };
        assert(data.subrange(0, (k - 1) * CHUNK_SIZE) + data.subrange((k - 1) * CHUNK_SIZE, end) =~= data.subrange(0, end));
    }
}

/// Reassembling the chunks that `data` was cut into, each stored under its
/// sequence number, gives `data` back; with the digest of `data` advertised,
/// the hash check passes, so `finalize_incoming` returns `data` itself.
pub proof fn lemma_transfer_integrity(data: Seq<u8>, chunks: Seq<(u32, Vec<u8>)>, advertised: Seq<u8>)
    requires
        data.len() <= MAX_FILE_SIZE,
        advertised == sha256_of(data),
        holds_chunks_of(chunks, data),
    ensures
        has_chunks_below(chunks, chunk_count_of(data.len())),
        assembled(chunks, chunk_count_of(data.len())) == data,
        sha256_of(assembled(chunks, chunk_count_of(data.len()))) == advertised,
{
    let n = data.len() as int;
    let c = chunk_count_of(data.len());
    lemma_assembled_prefix(data, chunks, c);
    if n > 0 {
        assert(c * 65536 >= n) by (nonlinear_arith)
            requires
                c == (n + 65535) / 65536,
                n > 0,
        {}
    }
    assert(data.subrange(0, n) =~= data);
}

} // verus!
