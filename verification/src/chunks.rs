//! Chunked transfer: splitting a file into fixed-size chunks and
//! reassembling downloaded chunks by position.
//!
//! A file of `L` bytes with chunk size `C` is cut into `ceil(L / C)` chunks
//! in original order; chunk `i` covers bytes `i*C .. min((i+1)*C, L)`. Each
//! uploaded chunk gets a record carrying its 0-based position; on download
//! the chunks may arrive in any order, and the bytes are put back together by
//! ascending position, which reproduces the original file exactly.

use vstd::arithmetic::div_mod::lemma_fundamental_div_mod;
use vstd::arithmetic::mul::{
    lemma_mul_inequality, lemma_mul_is_distributive_add_other_way,
    lemma_mul_is_distributive_sub_other_way,
};
use vstd::math::min;
use vstd::prelude::*;

use crate::errors::{PentaractError, PentaractResult};
use crate::ids::new_uuid;

verus! {

/// The fixed size of one chunk: 20 MiB.
pub const CHUNK_SIZE: usize = 20 * 1024 * 1024;

/// How many chunks a file of `len` bytes needs: `ceil(len / c)`.
pub open spec fn chunk_count(len: nat, c: nat) -> nat
    recommends
        c > 0,
{
    ((len + c - 1) / (c as int)) as nat
}

/// The bytes of chunk `i` of the file: the range `i*c .. min((i+1)*c, len)`.
pub open spec fn spec_chunk(data: Seq<u8>, c: nat, i: int) -> Seq<u8> {
    data.subrange(i * c, min((i + 1) * c, data.len() as int))
}

/// The chunk count is the least number of chunks that covers the file.
proof fn lemma_chunk_count(len: nat, c: nat)
    requires
        c >= 1,
    ensures
        chunk_count(len, c) * c >= len,
        chunk_count(len, c) * c < len + c,
        len == 0 ==> chunk_count(len, c) == 0,
{
    let x = (len + c - 1) as int;
    let d = c as int;
    lemma_fundamental_div_mod(x, d);
    let q = x / d;
    let r = x % d;
    assert(x == d * q + r);
    assert(q * d == d * q) by (nonlinear_arith);
    assert(q * d == x - r);
    if len == 0 {
        assert(x == d - 1);
        assert(q == 0) by {
            if q >= 1 {
                assert(q * d >= 1 * d) by (nonlinear_arith)
                    requires
                        q >= 1,
                        d > 0;
            }
            if q < 0 {
                assert(q * d <= -1 * d) by (nonlinear_arith)
                    requires
                        q <= -1,
                        d > 0;
            }
        }
    }
}

/// Splits a byte buffer into fixed-size chunks in original order: chunk `i`
/// covers bytes `i * chunk_size .. min((i + 1) * chunk_size, data.len())`,
/// and the number of chunks is exactly `ceil(data.len() / chunk_size)`.
pub fn split_into_chunks(data: &[u8], chunk_size: usize) -> (r: Vec<Vec<u8>>)
    requires
        chunk_size >= 1,
    ensures
        r@.len() == chunk_count(data@.len(), chunk_size as nat),
        forall|j: int|
            0 <= j < r@.len() ==> #[trigger] r@[j]@ == spec_chunk(data@, chunk_size as nat, j),
{
    let len = data.len();
    let ghost c = chunk_size as int;
    let ghost n = chunk_count(data@.len(), chunk_size as nat) as int;
    proof {
        lemma_chunk_count(data@.len(), chunk_size as nat);
    }
    let mut out: Vec<Vec<u8>> = Vec::new();
    let mut offset: usize = 0;
    proof {
        assert(0 * c == 0);
        assert(min(out@.len() * c, len as int) == 0);
    }
    while offset < len
        invariant
            chunk_size >= 1,
            len == data@.len(),
            c == chunk_size as int,
            n == chunk_count(data@.len(), chunk_size as nat),
            n * c >= len,
            n * c < len + c,
            out@.len() <= n,
            offset == min(out@.len() * c, len as int),
            forall|j: int|
                0 <= j < out@.len() ==> #[trigger] out@[j]@ == spec_chunk(
                    data@,
                    chunk_size as nat,
                    j,
                ),
        decreases len - offset,
    {
        let ghost j = out@.len() as int;
        proof {
            assert(j * c < len);
            if j + 1 > n {
                lemma_mul_inequality(n, j, c);
                assert(false);
            }
        }
        let end: usize = if len - offset >= chunk_size {
            offset + chunk_size
        } else {
            len
        };
        proof {
            assert((j + 1) * c == j * c + c) by (nonlinear_arith);
        }
        let piece: Vec<u8> = vstd::slice::slice_to_vec(&data[offset..end]);
        assert(piece@ == spec_chunk(data@, chunk_size as nat, j));
        out.push(piece);
        offset = end;
    }
    proof {
        let m = out@.len() as int;
        assert(m * c >= len);
        if m < n {
            lemma_mul_inequality(m, n - 1, c);
            lemma_mul_is_distributive_sub_other_way(c, n, 1);
            assert(false);
        }
    }
    out
}

/// A chunk count stays within a bound exactly when the file's length stays
/// within that many chunks' worth of bytes.
proof fn lemma_chunk_count_within(len: nat, c: nat, k: nat)
    requires
        c >= 1,
    ensures
        chunk_count(len, c) <= k <==> len <= k * c,
{
    lemma_chunk_count(len, c);
    let n = chunk_count(len, c) as int;
    if n <= k {
        lemma_mul_inequality(n, k as int, c as int);
    }
    if len <= k * c && n > k {
        lemma_mul_is_distributive_add_other_way(c as int, k as int, 1);
        lemma_mul_inequality(k as int + 1, n, c as int);
        assert(false);
    }
}

/// Whether a file of `len` bytes, split at `chunk_size`, needs no more chunks
/// than a chunk position can number. The orchestration asks this before any
/// transfer is dispatched, so an oversized file is rejected early, with
/// nothing sent to the remote side and nothing persisted.
pub fn fits_position_range(len: usize, chunk_size: usize) -> (r: bool)
    requires
        chunk_size >= 1,
    ensures
        r <==> chunk_count(len as nat, chunk_size as nat) <= i16::MAX,
{
    proof {
        lemma_chunk_count_within(len as nat, chunk_size as nat, i16::MAX as nat);
    }
    match chunk_size.checked_mul(i16::MAX as usize) {
        Some(cap) => len <= cap,
        None => true,
    }
}

/// Task `i` of a joined batch succeeded.
pub open spec fn task_succeeded<T>(s: Seq<PentaractResult<T>>, i: int) -> bool {
    s[i] is Ok
}

/// Every task of a joined batch succeeded.
pub open spec fn all_tasks_succeeded<T>(s: Seq<PentaractResult<T>>) -> bool {
    forall|i: int| 0 <= i < s.len() ==> #[trigger] task_succeeded(s, i)
}

/// `e` is the error of task `i`, and every task before `i` succeeded.
pub open spec fn first_failed_task<T>(s: Seq<PentaractResult<T>>, i: int, e: PentaractError) -> bool {
    &&& 0 <= i < s.len()
    &&& !task_succeeded(s, i)
    &&& e == s[i]->Err_0
    &&& forall|j: int| 0 <= j < i ==> #[trigger] task_succeeded(s, j)
}

/// Joins the results of one operation's concurrent transfer tasks: all values
/// in task order when every task succeeded, else the first failed task's
/// error. One failed chunk thus fails the whole operation, and nothing after
/// the join — such as the batch write of chunk records — sees partial
/// results.
pub fn collect_transfer_results<T>(results: Vec<PentaractResult<T>>) -> (r: PentaractResult<
    Vec<T>,
>)
    ensures
        r is Ok <==> all_tasks_succeeded(results@),
        r matches Ok(values) ==> {
            &&& values@.len() == results@.len()
            &&& forall|i: int|
                0 <= i < results@.len() ==> values@[i] == #[trigger] results@[i]->Ok_0
        },
        r matches Err(e) ==> exists|i: int| #[trigger] first_failed_task(results@, i, e),
{
    let ghost all = results@;
    let mut rest = results;
    let mut values: Vec<T> = Vec::new();
    while rest.len() > 0
        invariant
            all == results@,
            values@.len() + rest@.len() == all.len(),
            rest@ == all.skip(values@.len() as int),
            forall|j: int| 0 <= j < values@.len() ==> #[trigger] task_succeeded(all, j),
            forall|j: int| 0 <= j < values@.len() ==> values@[j] == #[trigger] all[j]->Ok_0,
        decreases rest@.len(),
    {
        let ghost k = values@.len() as int;
        let item = rest.remove(0);
        assert(item == all[k]);
        proof {
            assert(rest@ =~= all.skip(k + 1));
        }
        match item {
            Ok(v) => {
                values.push(v);
            },
            Err(e) => {
                proof {
                    assert(!task_succeeded(all, k));
                    assert(first_failed_task(all, k, e));
                }
                return Err(e);
            },
        }
    }
    proof {
        assert forall|i: int| 0 <= i < all.len() implies #[trigger] task_succeeded(all, i) by {}
    }
    Ok(values)
}

/// One uploaded fragment of a file: the persisted record that ties the
/// remote-assigned handle of the chunk to its 0-based position in the file.
pub struct FileChunk {
    /// The record's own unique id.
    pub id: uuid::Uuid,
    /// The owning file.
    pub file_id: uuid::Uuid,
    /// The opaque handle the remote service assigned to the stored chunk.
    pub telegram_file_id: String,
    /// 0-based position of the chunk in the file; unique and contiguous per
    /// file.
    pub position: i16,
}

impl FileChunk {
    pub fn new(id: uuid::Uuid, file_id: uuid::Uuid, telegram_file_id: String, position: i16) -> (r:
        Self)
        ensures
            r.id == id,
            r.file_id == file_id,
            r.telegram_file_id == telegram_file_id,
            r.position == position,
    {
        Self { id, file_id, telegram_file_id, position }
    }
}

/// One retrieved fragment during download: its position and its raw bytes,
/// discarded once the file is assembled.
pub struct DownloadedChunk {
    pub position: i16,
    pub data: Vec<u8>,
}

impl DownloadedChunk {
    pub fn new(position: i16, data: Vec<u8>) -> (r: Self)
        ensures
            r.position == position,
            r.data == data,
    {
        Self { position, data }
    }
}

/// Builds the chunk records of one upload: record `i` carries the remote
/// handle of chunk `i` at position `i`, each under a freshly generated id.
/// A file whose chunk count does not fit the position type is rejected.
pub fn make_chunk_records(file_id: uuid::Uuid, handles: Vec<String>) -> (r: PentaractResult<
    Vec<FileChunk>,
>)
    ensures
        handles@.len() <= i16::MAX ==> r is Ok,
        handles@.len() > i16::MAX ==> r == Err::<Vec<FileChunk>, _>(PentaractError::FileTooLarge),
        r matches Ok(records) ==> {
            &&& records@.len() == handles@.len()
            &&& forall|j: int| 0 <= j < records@.len() ==> #[trigger] records@[j].position == j
            &&& forall|j: int|
                0 <= j < records@.len() ==> #[trigger] records@[j].telegram_file_id == handles@[j]
            &&& forall|j: int| 0 <= j < records@.len() ==> #[trigger] records@[j].file_id == file_id
        },
{
    if handles.len() > (i16::MAX as usize) {
        return Err(PentaractError::FileTooLarge);
    }
    let ghost all = handles@;
    let mut rest = handles;
    let mut records: Vec<FileChunk> = Vec::new();
    while rest.len() > 0
        invariant
            all.len() <= i16::MAX,
            records@.len() + rest@.len() == all.len(),
            rest@ == all.skip(records@.len() as int),
            forall|j: int| 0 <= j < records@.len() ==> #[trigger] records@[j].position == j,
            forall|j: int|
                0 <= j < records@.len() ==> #[trigger] records@[j].telegram_file_id == all[j],
            forall|j: int| 0 <= j < records@.len() ==> #[trigger] records@[j].file_id == file_id,
        decreases rest@.len(),
    {
        let ghost j = records@.len() as int;
        let handle = rest.remove(0);
        assert(handle == all[j]);
        let position = records.len() as i16;
        let record = FileChunk::new(new_uuid(), file_id, handle, position);
        records.push(record);
        proof {
            assert(rest@ =~= all.skip(j + 1));
        }
    }
    Ok(records)
}

/// Some downloaded chunk claims position `p`.
pub open spec fn has_position(s: Seq<DownloadedChunk>, p: int) -> bool {
    exists|i: int| 0 <= i < s.len() && s[i].position == p
}

/// Every position `0 .. s.len()` is claimed by some downloaded chunk. With
/// one chunk per record this says the positions are exactly `0 .. s.len()`.
pub open spec fn positions_complete(s: Seq<DownloadedChunk>) -> bool {
    forall|p: int| 0 <= p < s.len() ==> #[trigger] has_position(s, p)
}

/// The first index whose chunk claims position `p`, or -1 if none does.
pub open spec fn find_pos(s: Seq<DownloadedChunk>, p: int) -> int
    decreases s.len(),
{
    if s.len() == 0 {
        -1
    } else if s[0].position == p {
        0
    } else {
        let rest = find_pos(s.drop_first(), p);
        if rest < 0 {
            -1
        } else {
            rest + 1
        }
    }
}

/// The bytes of positions `0 .. k`, in ascending position order.
pub open spec fn assembled_upto(s: Seq<DownloadedChunk>, k: int) -> Seq<u8>
    decreases k,
{
    if k <= 0 {
        Seq::empty()
    } else {
        assembled_upto(s, k - 1) + s[find_pos(s, k - 1)].data@
    }
}

/// The whole reassembled byte sequence: the chunks' bytes concatenated by
/// ascending position.
pub open spec fn assembled(s: Seq<DownloadedChunk>) -> Seq<u8> {
    assembled_upto(s, s.len() as int)
}

/// Where a chunk before `i` never claims `p` and the chunk at `i` does, `i`
/// is the first index claiming `p`.
proof fn lemma_find_pos_first(s: Seq<DownloadedChunk>, p: int, i: int)
    requires
        0 <= i < s.len(),
        forall|j: int| 0 <= j < i ==> s[j].position != p,
        s[i].position == p,
    ensures
        find_pos(s, p) == i,
    decreases i,
{
    if i == 0 {
    } else {
        assert(s[0].position != p);
        assert(s.drop_first()[i - 1] == s[i]);
        assert(forall|j: int| 0 <= j < i - 1 ==> s.drop_first()[j] == s[j + 1]);
        lemma_find_pos_first(s.drop_first(), p, i - 1);
    }
}

/// Where some chunk claims `p`, the first index claiming `p` exists and
/// really claims it.
proof fn lemma_find_pos_valid(s: Seq<DownloadedChunk>, p: int)
    requires
        has_position(s, p),
    ensures
        0 <= find_pos(s, p) < s.len(),
        s[find_pos(s, p)].position == p,
    decreases s.len(),
{
    if s.len() > 0 && s[0].position != p {
        let i = choose|i: int| 0 <= i < s.len() && s[i].position == p;
        assert(s.drop_first()[i - 1] == s[i]);
        assert(has_position(s.drop_first(), p));
        lemma_find_pos_valid(s.drop_first(), p);
        let rest = find_pos(s.drop_first(), p);
        assert(s.drop_first()[rest] == s[rest + 1]);
    }
}

/// The first index among the downloaded chunks that claims position `p`, if
/// any chunk does.
fn find_chunk_at(chunks: &Vec<DownloadedChunk>, p: usize) -> (r: Option<usize>)
    ensures
        r matches Some(i) ==> {
            &&& 0 <= i < chunks@.len()
            &&& chunks@[i as int].position == p
            &&& find_pos(chunks@, p as int) == i
        },
        r is None ==> !has_position(chunks@, p as int),
{
    let n = chunks.len();
    let mut i: usize = 0;
    while i < n
        invariant
            n == chunks@.len(),
            0 <= i <= n,
            forall|j: int| 0 <= j < i ==> #[trigger] chunks@[j].position != p,
        decreases n - i,
    {
        let pos = chunks[i].position;
        if pos >= 0 && (pos as usize) == p {
            proof {
                lemma_find_pos_first(chunks@, p as int, i as int);
            }
            return Some(i);
        }
        i = i + 1;
    }
    None
}

/// Reassembles downloaded chunks into the file's bytes: the chunks' payloads
/// are concatenated by ascending position, whatever order they arrived in.
/// Succeeds exactly when the chunks' positions cover `0 .. chunks.len()`; a
/// gap means the persisted chunk records were incomplete.
pub fn assemble_chunks(chunks: Vec<DownloadedChunk>) -> (r: PentaractResult<Vec<u8>>)
    ensures
        r is Ok <==> positions_complete(chunks@),
        r matches Ok(bytes) ==> bytes@ == assembled(chunks@),
        r matches Err(e) ==> e is PersistenceError,
{
    let n = chunks.len();
    let mut out: Vec<u8> = Vec::new();
    let mut p: usize = 0;
    while p < n
        invariant
            n == chunks@.len(),
            0 <= p <= n,
            forall|q: int| 0 <= q < p ==> #[trigger] has_position(chunks@, q),
            out@ == assembled_upto(chunks@, p as int),
        decreases n - p,
    {
        match find_chunk_at(&chunks, p) {
            Some(i) => {
                out.extend_from_slice(chunks[i].data.as_slice());
                proof {
                    assert(has_position(chunks@, p as int));
                }
                p = p + 1;
            },
            None => {
                return Err(
                    PentaractError::PersistenceError(
                        "chunk records of the file do not cover every position".to_owned(),
                    ),
                );
            },
        }
    }
    Ok(out)
}

/// The reassembled bytes of positions `0 .. k` are the file's first
/// `min(k * c, len)` bytes.
proof fn lemma_assembled_prefix(data: Seq<u8>, c: nat, s: Seq<DownloadedChunk>, k: int)
    requires
        c > 0,
        s.len() == chunk_count(data.len(), c),
        forall|i: int| 0 <= i < s.len() ==> #[trigger] s[i].data@ == spec_chunk(data, c, s[i].position as int),
        positions_complete(s),
        0 <= k <= s.len(),
    ensures
        assembled_upto(s, k) == data.subrange(0, min(k * c, data.len() as int)),
    decreases k,
{
    let len = data.len() as int;
    let n = s.len() as int;
    if k == 0 {
        assert(assembled_upto(s, 0) =~= data.subrange(0, 0));
    } else {
        lemma_assembled_prefix(data, c, s, k - 1);
        assert(has_position(s, k - 1));
        lemma_find_pos_valid(s, k - 1);
        let fp = find_pos(s, k - 1);
        assert(s[fp].data@ == spec_chunk(data, c, k - 1));
        lemma_chunk_count(data.len(), c);
        lemma_mul_is_distributive_sub_other_way(c as int, n, 1);
        assert((n - 1) * c < len);
        lemma_mul_inequality(k - 1, n - 1, c as int);
        assert((k - 1) * c <= (n - 1) * c);
        lemma_mul_inequality(k - 1, k, c as int);
        assert((k - 1) * c <= k * c);
        vstd::arithmetic::mul::lemma_mul_nonnegative(k - 1, c as int);
        assert((k - 1) * c >= 0);
        assert(min((k - 1) * c, len) == (k - 1) * c);
        assert(assembled_upto(s, k - 1) == data.subrange(0, (k - 1) * c));
        assert(s[fp].data@ == data.subrange((k - 1) * c, min(k * c, len)));
        assert(assembled_upto(s, k) =~= data.subrange(0, min(k * c, len)));
    }
}

/// Downloading reproduces what uploading stored: when one downloaded chunk
/// claims each position and carries the bytes the split gave that position —
/// in whatever completion order the transfers finished — reassembly by
/// ascending position yields the original file, byte for byte.
pub proof fn lemma_download_reassembles_upload(data: Seq<u8>, c: nat, s: Seq<DownloadedChunk>)
    requires
        c > 0,
        s.len() == chunk_count(data.len(), c),
        forall|i: int| 0 <= i < s.len() ==> #[trigger] s[i].data@ == spec_chunk(data, c, s[i].position as int),
        positions_complete(s),
    ensures
        assembled(s) == data,
{
    let len = data.len() as int;
    let n = s.len() as int;
    lemma_chunk_count(data.len(), c);
    lemma_assembled_prefix(data, c, s, n);
    assert(n * c >= len);
    assert(min(n * c, len) == len);
    assert(data.subrange(0, len) =~= data);
}

/// The chunk positions recorded for a file of `len` bytes and chunk size `c`
/// are exactly the set `{0, 1, .., ceil(len / c) - 1}`.
pub proof fn lemma_positions_are_exact_range(records: Seq<FileChunk>, len: nat, c: nat)
    requires
        c > 0,
        records.len() == chunk_count(len, c),
        forall|i: int| 0 <= i < records.len() ==> #[trigger] records[i].position == i,
    ensures
        records.map(|i: int, r: FileChunk| r.position as int).to_set() == Set::new(
            |p: int| 0 <= p < chunk_count(len, c),
        ),
{
    let m = records.map(|i: int, r: FileChunk| r.position as int);
    let n = records.len() as int;
    assert forall|p: int| 0 <= p < n implies m.to_set().contains(p) by {
        assert(m[p] == p);
        assert(m.contains(p));
    }
    assert forall|p: int| m.to_set().contains(p) implies 0 <= p < n by {
        let i = choose|i: int| 0 <= i < m.len() && m[i] == p;
        assert(records[i].position == i);
    }
    assert(m.to_set() =~= Set::new(|p: int| 0 <= p < chunk_count(len, c)));
}

} // verus!
