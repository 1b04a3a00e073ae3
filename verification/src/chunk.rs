//! Splitting a remote content into byte ranges that are downloaded in
//! parallel, one HTTP `Range` request per chunk.

use hyper::header::{Headers, Range};
use vstd::prelude::*;

verus! {

#[verifier::external_type_specification]
#[verifier::external_body]
pub struct ExHeaders(Headers);

/// A pair of byte offsets: the first and last byte of a chunk, or, as
/// `get_header_from_index` returns it, its first byte and the distance from
/// it to its last byte.
#[derive(Debug, PartialEq, Eq, Structural)]
pub struct RangeBytes(pub u64, pub u64);

/// The inclusive byte range `(first, last)` of chunk `chunk_index`, where
/// every chunk but the last spans `global_chunk_length` bytes and the content
/// ends at byte `content_length - 1`.  `None` when the content or the chunks
/// are empty, or when the chunk starts at or past the last byte.
pub open spec fn chunk_range(chunk_index: int, content_length: int, global_chunk_length: int) -> Option<(int, int)> {
    if content_length == 0 || global_chunk_length == 0 {
        None
    } else if chunk_index * global_chunk_length >= content_length - 1 {
        None
    } else {
        let last_of_chunk = (chunk_index + 1) * global_chunk_length - 1;
        Some((
            chunk_index * global_chunk_length,
            if content_length - 1 <= last_of_chunk { content_length - 1 } else { last_of_chunk },
        ))
    }
}

/// The products that the chunk computation forms fit in a `u64`.
pub open spec fn chunk_arithmetic_fits(chunk_index: int, content_length: int, global_chunk_length: int) -> bool {
    content_length == 0 || global_chunk_length == 0 || (chunk_index * global_chunk_length <= u64::MAX && (
    chunk_index * global_chunk_length < content_length - 1 ==> (chunk_index + 1) * global_chunk_length
        <= u64::MAX))
}

/// The headers of a request for bytes `first` to `last` (both included), as
/// hyper builds them from `Range::bytes(first, last)`.
pub uninterp spec fn range_request_headers(first: u64, last: u64) -> Headers;

/// A fresh `hyper::header::Headers` (`Headers::new`) into which
/// `Headers::set` has put `Range::bytes(first, last)`, the header
/// `Range: bytes=first-last`.  What the headers hold is named, not stated:
/// the result depends on `first` and `last` alone.
#[verifier::external_body]
fn byte_range_headers(first: u64, last: u64) -> (headers: Headers)
    ensures
        headers == range_request_headers(first, last),
{
    let mut headers = Headers::new();
    headers.set(Range::bytes(first, last));
    headers
}

/// The request of chunk `chunk_index`: the headers that ask for its byte
/// range, with its first byte and the distance from its first to its last byte.
pub open spec fn chunk_request(chunk_index: int, content_length: int, global_chunk_length: int) -> Option<(Headers, RangeBytes)> {
    match chunk_range(chunk_index, content_length, global_chunk_length) {
        Some((first, last)) => Some(
            (range_request_headers(first as u64, last as u64), RangeBytes(first as u64, (last - first) as u64)),
        ),
        None => None,
    }
}

/// Gets the byte range of a chunk, based on the chunk index.
pub fn get_chunk_length(chunk_index: u64, content_length: u64, global_chunk_length: u64) -> (res: Option<RangeBytes>)
    requires
        chunk_arithmetic_fits(chunk_index as int, content_length as int, global_chunk_length as int),
    ensures
        match res {
            Some(range) => chunk_range(chunk_index as int, content_length as int, global_chunk_length as int)
                == Some((range.0 as int, range.1 as int)),
            None => chunk_range(chunk_index as int, content_length as int, global_chunk_length as int) is None,
        },
        res matches Some(range) ==> range.0 <= range.1 < content_length,
{
    if content_length == 0 || global_chunk_length == 0 {
        return None;
    }
    let b_range: u64 = chunk_index * global_chunk_length;
    if b_range >= content_length - 1 {
        return None;
    }
    assert(chunk_index <= chunk_index * global_chunk_length) by (nonlinear_arith)
        requires
            global_chunk_length >= 1,
    ;
    assert((chunk_index + 1) * global_chunk_length == chunk_index * global_chunk_length
        + global_chunk_length) by (nonlinear_arith);
    let last_of_chunk: u64 = ((chunk_index + 1) * global_chunk_length) - 1;
    let e_range: u64 = if content_length - 1 <= last_of_chunk {
        content_length - 1
    } else {
        last_of_chunk
    };
    Some(RangeBytes(b_range, e_range))
}

/// Gets the headers to send to the file server for a chunk (given by its
/// index), with the chunk's first byte and the distance to its last byte.
pub fn get_header_from_index(chunk_index: u64, content_length: u64, global_chunk_length: u64) -> (res: Option<(Headers, RangeBytes)>)
    requires
        chunk_arithmetic_fits(chunk_index as int, content_length as int, global_chunk_length as int),
    ensures
        res == chunk_request(chunk_index as int, content_length as int, global_chunk_length as int),
{
    match get_chunk_length(chunk_index, content_length, global_chunk_length) {
        Some(range) => {
            let header = byte_range_headers(range.0, range.1);
            Some((header, RangeBytes(range.0, range.1 - range.0)))
        },
        None => None,
    }
}

/// The length of every chunk but the last one when `content_length` bytes
/// are split into `nb_chunks` chunks.
pub open spec fn full_chunk_length(content_length: int, nb_chunks: int) -> int {
    content_length / nb_chunks + 1
}

/// Splitting `content_length` bytes into `nb_chunks` chunks succeeds: there
/// is at least one chunk, the chunk length and every chunk's arithmetic fit
/// in a `u64`, and every chunk has a byte range.
pub open spec fn chunk_plan_ok(content_length: u64, nb_chunks: u64) -> bool {
    let g = full_chunk_length(content_length as int, nb_chunks as int);
    &&& nb_chunks > 0
    &&& g <= u64::MAX
    &&& forall|i: int|
        #![trigger chunk_range(i, content_length as int, g)]
        0 <= i < nb_chunks ==> chunk_arithmetic_fits(i, content_length as int, g) && chunk_range(
            i,
            content_length as int,
            g,
        ) is Some
}

/// `chunk_plan_ok` without a quantifier: the last chunk starts before the
/// last byte, and the end of the last full chunk fits in a `u64`.
pub open spec fn chunk_plan_fits(content_length: int, nb_chunks: int) -> bool {
    let g = full_chunk_length(content_length, nb_chunks);
    &&& nb_chunks > 0
    &&& content_length > 0
    &&& g <= u64::MAX
    &&& (nb_chunks - 1) * g < content_length - 1
    &&& nb_chunks * g <= u64::MAX
}

proof fn lemma_chunk_plan_closed_form(content_length: u64, nb_chunks: u64)
    ensures
        chunk_plan_ok(content_length, nb_chunks) == chunk_plan_fits(content_length as int, nb_chunks as int),
{
    let cl = content_length as int;
    let n = nb_chunks as int;
    if nb_chunks > 0 {
        let g = full_chunk_length(cl, n);
        assert(g >= 1) by (nonlinear_arith)
            requires
                cl >= 0,
                n > 0,
                g == cl / n + 1,
        ;
        assert(n * g == (n - 1) * g + g) by (nonlinear_arith);
        if chunk_plan_ok(content_length, nb_chunks) {
            assert(chunk_range(n - 1, cl, g) is Some);
        }
        if chunk_plan_fits(cl, n) {
            assert forall|i: int|
                #![trigger chunk_range(i, cl, g)]
                0 <= i < n implies chunk_arithmetic_fits(i, cl, g) && chunk_range(i, cl, g) is Some by {
                assert(i * g <= (n - 1) * g) by (nonlinear_arith)
                    requires
                        0 <= i <= n - 1,
                        g >= 1,
                ;
                assert((i + 1) * g <= n * g) by (nonlinear_arith)
                    requires
                        0 <= i + 1 <= n,
                        g >= 1,
                ;
            }
        }
    }
}

/// Whether `content_length` bytes can be split into `nb_chunks` chunks.
pub fn chunk_plan_is_valid(content_length: u64, nb_chunks: u64) -> (ok: bool)
    ensures
        ok == chunk_plan_ok(content_length, nb_chunks),
{
    proof {
        lemma_chunk_plan_closed_form(content_length, nb_chunks);
    }
    if nb_chunks == 0 || content_length == 0 {
        return false;
    }
    let quotient: u64 = content_length / nb_chunks;
    if quotient == u64::MAX {
        return false;
    }
    let g: u128 = (quotient + 1) as u128;
    let n: u128 = nb_chunks as u128;
    assert(n * g <= 0xffff_ffff_ffff_ffff * 0xffff_ffff_ffff_ffffu128) by (nonlinear_arith)
        requires
            n <= 0xffff_ffff_ffff_ffff,
            g <= 0xffff_ffff_ffff_ffff,
    ;
    let total: u128 = n * g;
    assert(total - g == (n - 1) * g) by (nonlinear_arith)
        requires
            total == n * g,
    ;
    total - g < (content_length - 1) as u128 && total <= u64::MAX as u128
}

/// The inclusive byte range of chunk `i` when `content_length` bytes are
/// split into `nb_chunks` chunks.
pub open spec fn chunk_bounds(i: int, content_length: int, nb_chunks: int) -> (int, int) {
    chunk_range(i, content_length, full_chunk_length(content_length, nb_chunks))->Some_0
}

/// The chunks of a valid split tile the content: the first starts at byte 0,
/// the last ends at the last byte, each is non-empty, and each starts right
/// after the one before it ends.
pub proof fn lemma_chunks_tile_content(content_length: u64, nb_chunks: u64)
    requires
        chunk_plan_ok(content_length, nb_chunks),
    ensures
        chunk_bounds(0, content_length as int, nb_chunks as int).0 == 0,
        chunk_bounds(nb_chunks - 1, content_length as int, nb_chunks as int).1 == content_length - 1,
        forall|i: int|
            0 <= i < nb_chunks ==> #[trigger] chunk_bounds(i, content_length as int, nb_chunks as int).0
                <= chunk_bounds(i, content_length as int, nb_chunks as int).1,
        forall|i: int|
            0 <= i < nb_chunks - 1 ==> #[trigger] chunk_bounds(i, content_length as int, nb_chunks as int).1
                + 1 == chunk_bounds(i + 1, content_length as int, nb_chunks as int).0,
{
    let cl = content_length as int;
    let n = nb_chunks as int;
    let g = full_chunk_length(cl, n);
    lemma_chunk_plan_closed_form(content_length, nb_chunks);
    assert(chunk_range(0, cl, g) is Some);
    assert(chunk_range(n - 1, cl, g) is Some);
    assert(n * g >= cl + 1) by (nonlinear_arith)
        requires
            n > 0,
            cl >= 0,
            g == cl / n + 1,
    ;
    assert(n * g == (n - 1) * g + g) by (nonlinear_arith);
    assert forall|i: int| 0 <= i < n implies #[trigger] chunk_bounds(i, cl, n).0 <= chunk_bounds(i, cl, n).1 by {
        assert(chunk_range(i, cl, g) is Some);
        assert((i + 1) * g == i * g + g) by (nonlinear_arith);
    }
    assert forall|i: int| 0 <= i < n - 1 implies #[trigger] chunk_bounds(i, cl, n).1 + 1 == chunk_bounds(
        i + 1,
        cl,
        n,
    ).0 by {
        assert(chunk_range(i, cl, g) is Some);
        assert(chunk_range(i + 1, cl, g) is Some);
        assert((i + 1) * g <= (n - 1) * g) by (nonlinear_arith)
            requires
                0 <= i + 1 <= n - 1,
                g >= 1,
        ;
    }
}

/// A chunk starts at its index times the chunk length, spans the chunk length
/// unless it is cut at the last byte of the content, and starts right after
/// the chunk before it ends; only chunks that would start at or past the last
/// byte are missing.
pub proof fn lemma_chunk_range_shape(chunk_index: int, content_length: int, global_chunk_length: int)
    requires
        0 <= chunk_index,
        0 <= content_length,
        1 <= global_chunk_length,
    ensures
        chunk_range(chunk_index, content_length, global_chunk_length) matches Some((first, last)) ==> {
            &&& first == chunk_index * global_chunk_length
            &&& first <= last <= content_length - 1
            &&& last - first + 1 <= global_chunk_length
            &&& (last == content_length - 1 || last - first + 1 == global_chunk_length)
        },
        chunk_range(chunk_index, content_length, global_chunk_length) is None ==> content_length == 0
            || chunk_index * global_chunk_length >= content_length - 1,
        chunk_index >= 1 ==> (chunk_range(chunk_index, content_length, global_chunk_length) matches Some((first, _))
            ==> (chunk_range(chunk_index - 1, content_length, global_chunk_length) matches Some((_, last_before))
            && last_before + 1 == first)),
{
    let g = global_chunk_length;
    assert((chunk_index + 1) * g == chunk_index * g + g) by (nonlinear_arith);
    assert(chunk_index * g == (chunk_index - 1) * g + g) by (nonlinear_arith);
    assert(0 <= chunk_index * g) by (nonlinear_arith)
        requires
            0 <= chunk_index,
            1 <= g,
    ;
}

/// The headers of a chunk's request ask for exactly the bytes that its range
/// covers: from its first byte to its first byte plus the distance to its last.
pub proof fn lemma_request_header_covers_range(chunk_index: int, content_length: int, global_chunk_length: int)
    requires
        0 <= chunk_index,
        0 <= content_length <= u64::MAX,
        0 <= global_chunk_length,
        chunk_arithmetic_fits(chunk_index, content_length, global_chunk_length),
    ensures
        chunk_request(chunk_index, content_length, global_chunk_length) matches Some((headers, range))
            ==> range.0 <= range.0 + range.1 < content_length && headers == range_request_headers(
            range.0,
            (range.0 + range.1) as u64,
        ),
{
    if chunk_range(chunk_index, content_length, global_chunk_length) is Some {
        assert(0 <= chunk_index * global_chunk_length) by (nonlinear_arith)
            requires
                0 <= chunk_index,
                0 <= global_chunk_length,
        ;
        assert((chunk_index + 1) * global_chunk_length == chunk_index * global_chunk_length
            + global_chunk_length) by (nonlinear_arith);
    }
}

/// When `content_length` bytes are split into `nb_chunks` chunks of
/// `g = content_length / nb_chunks + 1` bytes, chunk `i` asks for bytes
/// `i * g` to `(i + 1) * g - 1`, the last chunk for bytes up to the last byte
/// of the content.
pub proof fn lemma_plan_requests_whole_chunks(content_length: u64, nb_chunks: u64)
    requires
        chunk_plan_ok(content_length, nb_chunks),
    ensures
        forall|i: int|
            0 <= i < nb_chunks ==> #[trigger] chunk_request(
                i,
                content_length as int,
                full_chunk_length(content_length as int, nb_chunks as int),
            ) == Some(
                (
                    range_request_headers(
                        (i * (content_length / nb_chunks + 1)) as u64,
                        (if i == nb_chunks - 1 {
                            content_length - 1
                        } else {
                            (i + 1) * (content_length / nb_chunks + 1) - 1
                        }) as u64,
                    ),
                    RangeBytes(
                        (i * (content_length / nb_chunks + 1)) as u64,
                        ((if i == nb_chunks - 1 {
                            content_length - 1
                        } else {
                            (i + 1) * (content_length / nb_chunks + 1) - 1
                        }) - i * (content_length / nb_chunks + 1)) as u64,
                    ),
                ),
            ),
{
    let cl = content_length as int;
    let n = nb_chunks as int;
    let g = full_chunk_length(cl, n);
    lemma_chunk_plan_closed_form(content_length, nb_chunks);
    assert(n * g >= cl + 1) by (nonlinear_arith)
        requires
            n > 0,
            cl >= 0,
            g == cl / n + 1,
    ;
    assert(n * g == (n - 1) * g + g) by (nonlinear_arith);
    assert forall|i: int| 0 <= i < n implies #[trigger] chunk_request(i, cl, g) == Some(
        (
            range_request_headers(
                (i * g) as u64,
                (if i == n - 1 { cl - 1 } else { (i + 1) * g - 1 }) as u64,
            ),
            RangeBytes((i * g) as u64, ((if i == n - 1 { cl - 1 } else { (i + 1) * g - 1 }) - i * g) as u64),
        ),
    ) by {
        assert(chunk_range(i, cl, g) is Some);
        if i < n - 1 {
            assert((i + 1) * g <= (n - 1) * g) by (nonlinear_arith)
                requires
                    0 <= i + 1 <= n - 1,
                    g >= 1,
            ;
        }
    }
}

/// The requests of all chunks, in order, when `content_length` bytes are
/// downloaded in `nb_chunks` chunks: for chunk `i`, the headers that ask for
/// its byte range, its first byte and the distance to its last byte.
pub fn download_plan(content_length: u64, nb_chunks: u64) -> (plan: Vec<(Headers, RangeBytes)>)
    requires
        chunk_plan_ok(content_length, nb_chunks),
    ensures
        plan.len() == nb_chunks,
        forall|i: int|
            0 <= i < nb_chunks ==> chunk_request(
                i,
                content_length as int,
                full_chunk_length(content_length as int, nb_chunks as int),
            ) == Some(#[trigger] plan@[i]),
{
    let global_chunk_length: u64 = (content_length / nb_chunks) + 1;
    let ghost g = global_chunk_length as int;
    let mut plan: Vec<(Headers, RangeBytes)> = Vec::new();
    let mut chunk_index: u64 = 0;
    while chunk_index < nb_chunks
        invariant
            chunk_plan_ok(content_length, nb_chunks),
            g == full_chunk_length(content_length as int, nb_chunks as int),
            g == global_chunk_length as int,
            chunk_index <= nb_chunks,
            plan.len() == chunk_index,
            forall|i: int|
                0 <= i < chunk_index ==> chunk_request(i, content_length as int, g) == Some(
                    #[trigger] plan@[i],
                ),
        decreases nb_chunks - chunk_index,
    {
        assert(chunk_range(chunk_index as int, content_length as int, g) is Some);
        match get_header_from_index(chunk_index, content_length, global_chunk_length) {
            Some(request) => {
                plan.push(request);
            },
            None => {
                assert(false);
            },
        }
        chunk_index += 1;
    }
    plan
}

} // verus!
