//! Planning for chunked, ranged downloads: a remote resource of known size is
//! partitioned into disjoint byte ranges that exactly tile `[0, file_size)`,
//! each fetched by an independent range request.

use vstd::prelude::*;
use vstd::arithmetic::mul::{lemma_mul_inequality, lemma_mul_is_distributive_add_other_way};
use vstd::arithmetic::div_mod::{lemma_fundamental_div_mod, lemma_mod_bound};
use crate::error::EtlError;

verus! {

/// One contiguous byte sub-range of a larger resource; `end` is exclusive.
#[derive(Clone, Copy, Debug, PartialEq, Eq, Structural)]
pub struct Chunk {
    pub index: u64,
    pub start: u64,
    pub end: u64,
}

/// How many chunks a resource of `file_size` bytes takes at `chunk_size`
/// bytes per chunk: the division rounded up.
pub open spec fn chunk_count(file_size: int, chunk_size: int) -> int
    recommends
        chunk_size >= 1,
{
    if file_size % chunk_size == 0 {
        file_size / chunk_size
    } else {
        file_size / chunk_size + 1
    }
}

/// Where chunk `i` begins.
pub open spec fn chunk_start(i: int, chunk_size: int) -> int {
    i * chunk_size
}

/// Where chunk `i` ends (exclusive): one full chunk further, clipped to the
/// file size.
pub open spec fn chunk_end(i: int, file_size: int, chunk_size: int) -> int {
    vstd::math::min((i + 1) * chunk_size, file_size)
}

/// The chunk at position `i` of a plan holds exactly the range the formulas
/// above give it.
pub open spec fn chunk_wf(c: Chunk, i: int, file_size: int, chunk_size: int) -> bool {
    &&& c.index == i
    &&& c.start == chunk_start(i, chunk_size)
    &&& c.end == chunk_end(i, file_size, chunk_size)
}

/// Partition `[0, file_size)` into ranges of `chunk_size` bytes each, the
/// last one clipped at the end of the file.
pub fn plan_chunks(file_size: u64, chunk_size: u64) -> (chunks: Vec<Chunk>)
    requires
        chunk_size >= 1,
    ensures
        chunks@.len() == chunk_count(file_size as int, chunk_size as int),
        forall|i: int|
            0 <= i < chunks@.len() ==> chunk_wf(
                chunks@[i],
                i,
                file_size as int,
                chunk_size as int,
            ),
{
    let mut chunks: Vec<Chunk> = Vec::new();
    let mut i: u64 = 0;
    let mut start: u64 = 0;
    while start < file_size
        invariant
            chunk_size >= 1,
            i == chunks@.len(),
            start as int == vstd::math::min(i as int * chunk_size as int, file_size as int),
            i == 0 || ((i as int - 1) * (chunk_size as int)) < file_size as int,
            forall|j: int|
                0 <= j < i ==> chunk_wf(chunks@[j], j, file_size as int, chunk_size as int),
        decreases file_size as int - start as int,
    {
        proof {
            assert(i as int * chunk_size as int == start as int);
            assert((i as int + 1) * chunk_size as int == i as int * chunk_size as int
                + chunk_size as int) by {
                lemma_mul_is_distributive_add_other_way(
                    chunk_size as int,
                    i as int,
                    1,
                );
            }
            assert(i as int <= i as int * chunk_size as int) by {
                lemma_mul_inequality(1, chunk_size as int, i as int);
            }
        }
        let end: u64 = if file_size - start > chunk_size {
            start + chunk_size
        } else {
            file_size
        };
        chunks.push(Chunk { index: i, start, end });
        i = i + 1;
        start = end;
    }
    proof {
        lemma_count_from_bounds(file_size as int, chunk_size as int, i as int);
    }
    chunks
}

/// A nonnegative `i` with `(i - 1) * chunk_size < file_size <= i * chunk_size`
/// is the rounded-up quotient.
proof fn lemma_count_from_bounds(file_size: int, chunk_size: int, i: int)
    requires
        chunk_size >= 1,
        file_size >= 0,
        i >= 0,
        file_size <= i * chunk_size,
        i == 0 || (i - 1) * chunk_size < file_size,
    ensures
        i == chunk_count(file_size, chunk_size),
{
    lemma_fundamental_div_mod(file_size, chunk_size);
    lemma_mod_bound(file_size, chunk_size);
    let q = file_size / chunk_size;
    let r = file_size % chunk_size;
    if i == 0 {
        assert(file_size == 0);
        assert(q == 0 && r == 0) by {
            vstd::arithmetic::div_mod::lemma_basic_div_specific_divisor(chunk_size);
            vstd::arithmetic::div_mod::lemma_small_mod(0, chunk_size as nat);
        }
    } else {
        assert(file_size == chunk_size * q + r);
        if r == 0 {
            // file_size == q * chunk_size; the bounds squeeze i to q.
            assert(file_size == q * chunk_size) by {
                vstd::arithmetic::mul::lemma_mul_is_commutative(chunk_size, q);
            }
            if i > q {
                lemma_mul_inequality(q, i - 1, chunk_size);
                assert(false);
            }
            if i < q {
                lemma_mul_inequality(i, q - 1, chunk_size);
                vstd::arithmetic::mul::lemma_mul_strict_inequality(q - 1, q, chunk_size);
                assert(false);
            }
        } else {
            // q * chunk_size < file_size < (q + 1) * chunk_size forces i == q + 1.
            assert(q * chunk_size < file_size) by {
                assert(chunk_size * q == q * chunk_size) by {
                    vstd::arithmetic::mul::lemma_mul_is_commutative(chunk_size, q);
                }
            }
            assert(file_size < (q + 1) * chunk_size) by {
                lemma_mul_is_distributive_add_other_way(chunk_size, q, 1);
                vstd::arithmetic::mul::lemma_mul_is_commutative(chunk_size, q);
            }
            if i <= q {
                lemma_mul_inequality(i, q, chunk_size);
                assert(false);
            }
            if i > q + 1 {
                lemma_mul_inequality(q + 1, i - 1, chunk_size);
                assert(false);
            }
        }
    }
}

/// The chunk formulas tile `[0, file_size)` exactly: the first chunk starts
/// at zero, each chunk ends where the next begins, the last ends at the file
/// size, every chunk is non-empty and `chunk_size` long except the last,
/// whose length is `file_size % chunk_size` (or a full chunk when that
/// remainder is zero).
pub proof fn lemma_chunks_tile(file_size: int, chunk_size: int)
    requires
        chunk_size >= 1,
        file_size >= 0,
    ensures
        chunk_count(file_size, chunk_size) >= 0,
        file_size > 0 <==> chunk_count(file_size, chunk_size) >= 1,
        chunk_start(0, chunk_size) == 0,
        forall|i: int|
            0 <= i < chunk_count(file_size, chunk_size) - 1 ==> #[trigger] chunk_end(
                i,
                file_size,
                chunk_size,
            ) == chunk_start(i + 1, chunk_size),
        chunk_count(file_size, chunk_size) >= 1 ==> chunk_end(
            chunk_count(file_size, chunk_size) - 1,
            file_size,
            chunk_size,
        ) == file_size,
        forall|i: int|
            0 <= i < chunk_count(file_size, chunk_size) ==> #[trigger] chunk_start(
                i,
                chunk_size,
            ) < chunk_end(i, file_size, chunk_size) <= file_size,
        forall|i: int|
            0 <= i < chunk_count(file_size, chunk_size) - 1 ==> #[trigger] chunk_end(
                i,
                file_size,
                chunk_size,
            ) - chunk_start(i, chunk_size) == chunk_size,
        chunk_count(file_size, chunk_size) >= 1 ==> chunk_end(
            chunk_count(file_size, chunk_size) - 1,
            file_size,
            chunk_size,
        ) - chunk_start(chunk_count(file_size, chunk_size) - 1, chunk_size) == (
        if file_size % chunk_size == 0 {
            chunk_size as int
        } else {
            file_size % chunk_size
        }),
{
    lemma_fundamental_div_mod(file_size, chunk_size);
    lemma_mod_bound(file_size, chunk_size);
    let n = chunk_count(file_size, chunk_size);
    let q = file_size / chunk_size;
    let r = file_size % chunk_size;
    assert(file_size == q * chunk_size + r) by {
        vstd::arithmetic::mul::lemma_mul_is_commutative(chunk_size, q);
    }
    assert(q >= 0) by {
        vstd::arithmetic::div_mod::lemma_div_pos_is_pos(file_size, chunk_size);
    }
    // Every index strictly below the count starts strictly inside the file.
    assert forall|i: int| 0 <= i < n implies #[trigger] chunk_start(i, chunk_size)
        < file_size by {
        if r == 0 {
            lemma_mul_inequality(i, q - 1, chunk_size);
            vstd::arithmetic::mul::lemma_mul_strict_inequality(q - 1, q, chunk_size);
        } else {
            lemma_mul_inequality(i, q, chunk_size);
        }
    }
    // One chunk further than the last reaches (or passes) the end of the file.
    assert(n * chunk_size >= file_size) by {
        if r == 0 {
        } else {
            lemma_mul_is_distributive_add_other_way(chunk_size, q, 1);
        }
    }
    assert forall|i: int| 0 <= i < n - 1 implies #[trigger] chunk_end(i, file_size, chunk_size)
        == chunk_start(i + 1, chunk_size) by {
        assert(chunk_start(i + 1, chunk_size) < file_size);
    }
    assert forall|i: int| 0 <= i < n implies #[trigger] chunk_start(i, chunk_size) < chunk_end(
        i,
        file_size,
        chunk_size,
    ) <= file_size by {
        lemma_mul_is_distributive_add_other_way(chunk_size, i, 1);
        assert((i + 1) * chunk_size == i * chunk_size + chunk_size);
        if (i + 1) * chunk_size <= file_size {
        } else {
            assert(chunk_end(i, file_size, chunk_size) == file_size);
        }
    }
    if n >= 1 {
        assert(chunk_end(n - 1, file_size, chunk_size) == file_size) by {
            assert(chunk_start(n - 1, chunk_size) < file_size);
            lemma_mul_is_distributive_add_other_way(chunk_size, n - 1, 1);
        }
        assert(chunk_end(n - 1, file_size, chunk_size) - chunk_start(n - 1, chunk_size) == (
        if r == 0 {
            chunk_size as int
        } else {
            r
        })) by {
            lemma_mul_is_distributive_add_other_way(chunk_size, q, 1);
            if r == 0 {
                lemma_mul_is_distributive_add_other_way(chunk_size, q - 1, 1);
            }
        }
    }
    assert forall|i: int| 0 <= i < n - 1 implies #[trigger] chunk_end(i, file_size, chunk_size)
        - chunk_start(i, chunk_size) == chunk_size by {
        assert(chunk_end(i, file_size, chunk_size) == chunk_start(i + 1, chunk_size));
        lemma_mul_is_distributive_add_other_way(chunk_size, i, 1);
    }
    if file_size > 0 {
        assert(n >= 1) by {
            if q == 0 && r == 0 {
                assert(0 * chunk_size == 0);
                assert(file_size == 0);
            }
        }
    }
    if n >= 1 {
        assert(chunk_start(0, chunk_size) < file_size);
    }
}

/// How a resource is to be fetched: sliced into ranges when its size is
/// known, in one whole-resource request when it is not.
pub enum DownloadPlan {
    /// The size is known: fetch these ranges concurrently.
    Chunked(Vec<Chunk>),
    /// The size is unknown: one request covering the whole resource.
    Whole,
}

/// Decide how to fetch a resource from what the initial response said about
/// its size.
pub fn plan_download(content_length: Option<u64>, chunk_size: u64) -> (plan: DownloadPlan)
    requires
        chunk_size >= 1,
    ensures
        content_length is None ==> plan is Whole,
        content_length is Some ==> plan is Chunked && {
            let chunks = plan->Chunked_0;
            let file_size = content_length->0 as int;
            &&& chunks@.len() == chunk_count(file_size, chunk_size as int)
            &&& forall|i: int|
                0 <= i < chunks@.len() ==> chunk_wf(chunks@[i], i, file_size, chunk_size as int)
        },
{
    match content_length {
        None => DownloadPlan::Whole,
        Some(file_size) => DownloadPlan::Chunked(plan_chunks(file_size, chunk_size)),
    }
}

/// The size a `Content-Length` header announces: the denoted number when
/// the header is present and reads as a decimal that fits, and nothing —
/// size unknown — when it is absent or unreadable.
pub fn content_length_size(header: Option<&str>) -> (r: Option<u64>)
    ensures
        header is None ==> r is None,
        header is Some ==> {
            let s = header->0@;
            if s.len() >= 1 && (forall|i: int| 0 <= i < s.len() ==> crate::digits::is_digit(
                s[i],
            )) && crate::digits::dec_value(s) <= u64::MAX {
                r == Some(crate::digits::dec_value(s) as u64)
            } else {
                r is None
            }
        },
{
    match header {
        None => None,
        Some(s) => crate::digits::parse_u64_dec(s),
    }
}

/// The `Range` header value asking for bytes `start` to `last`, both ends
/// included.
pub open spec fn range_header_seq(start: int, last: int) -> Seq<char> {
    "bytes="@ + crate::digits::dec_seq(start) + "-"@ + crate::digits::dec_seq(last)
}

/// The `Range` header for one chunk `[start, end)`: the wire form names the
/// closed range, so the last byte asked for is `end - 1`.
pub fn range_header_value(start: u64, end: u64) -> (r: String)
    requires
        start < end,
    ensures
        r@ == range_header_seq(start as int, end as int - 1),
{
    let mut s = String::from_str("bytes=");
    let start_digits = crate::digits::u64_to_dec(start);
    s.append(start_digits.as_str());
    s.append("-");
    let last_digits = crate::digits::u64_to_dec(end - 1);
    s.append(last_digits.as_str());
    proof {
        assert(s@ =~= range_header_seq(start as int, end as int - 1));
    }
    s
}

/// What one finished range request decides: a 206 response is accepted, any
/// other status is that chunk's hard failure.
pub fn chunk_outcome(status: u16) -> (r: Result<(), EtlError>)
    ensures
        r is Ok <==> status == 206,
        r is Err ==> r->Err_0 == (EtlError::TransientNetwork { status }),
{
    if status == 206 {
        Ok(())
    } else {
        Err(EtlError::TransientNetwork { status })
    }
}

/// The first failure among the chunk outcomes, or success when there is none.
pub open spec fn first_err(s: Seq<Result<(), EtlError>>) -> Result<(), EtlError>
    decreases s.len(),
{
    if s.len() == 0 {
        Ok(())
    } else if s[0] is Err {
        s[0]
    } else {
        first_err(s.drop_first())
    }
}

/// A download is complete only when every chunk succeeded; otherwise the
/// first chunk failure is surfaced unchanged.
pub fn download_outcome(results: &Vec<Result<(), EtlError>>) -> (r: Result<(), EtlError>)
    ensures
        r == first_err(results@),
        r is Ok <==> (forall|i: int| 0 <= i < results@.len() ==> results@[i] is Ok),
{
    let mut k: usize = 0;
    proof {
        assert(results@.skip(0) =~= results@);
    }
    while k < results.len()
        invariant
            k <= results@.len(),
            first_err(results@) == first_err(results@.skip(k as int)),
            forall|i: int| 0 <= i < k ==> results@[i] is Ok,
        decreases results@.len() - k as int,
    {
        proof {
            assert(results@.skip(k as int)[0] == results@[k as int]);
            assert(results@.skip(k as int).drop_first() =~= results@.skip(k as int + 1));
        }
        if let Err(e) = results[k] {
            proof {
                lemma_first_err_of_err(results@, k as int);
            }
            return Err(e);
        }
        k = k + 1;
    }
    proof {
        assert(results@.skip(k as int) =~= Seq::<Result<(), EtlError>>::empty());
    }
    Ok(())
}

/// If everything before `k` succeeded and `k` failed, the first failure of
/// the whole sequence is the one at `k`.
proof fn lemma_first_err_of_err(s: Seq<Result<(), EtlError>>, k: int)
    requires
        0 <= k < s.len(),
        s[k] is Err,
        forall|i: int| 0 <= i < k ==> s[i] is Ok,
    ensures
        first_err(s) == s[k],
    decreases k,
{
    if k == 0 {
    } else {
        assert(s.drop_first()[k - 1] == s[k]);
        assert(forall|i: int| 0 <= i < k - 1 ==> s.drop_first()[i] == s[i + 1]);
        lemma_first_err_of_err(s.drop_first(), k - 1);
    }
}

} // verus!
