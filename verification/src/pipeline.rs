//! Download orchestration: preallocate the destination buffer, apply each
//! segment response to its window, and digest the reassembled bytes.

use vstd::prelude::*;

verus! {

use crate::ProtocolError;
use crate::digest::digest_bytes;
use crate::digest::sha256_of;
use crate::framing::frame_response;
use crate::framing::spec_frame;
use crate::headers::discover_total_length;
use crate::headers::spec_total_length;
use crate::windows::SegmentWindow;
use crate::windows::lemma_windows_tile;
use crate::windows::make_windows;
use crate::windows::spec_windows;
use crate::windows::windows_tile;

/// `buf` with the bytes of `data` written over `[start, start + data.len())`
/// and every other position unchanged.
pub open spec fn write_at(buf: Seq<u8>, start: int, data: Seq<u8>) -> Seq<u8> {
    buf.take(start) + data + buf.skip(start + data.len())
}

/// Applying one raw segment response to the buffer at its window: frame the
/// response, require the body to have exactly the window's length, and copy
/// it over the window.
pub open spec fn spec_apply_segment(buf: Seq<u8>, w: SegmentWindow, resp: Seq<u8>) -> Result<
    Seq<u8>,
    ProtocolError,
> {
    match spec_frame(resp) {
        Ok((header, body)) => if body.len() != w.length {
            Err(ProtocolError::BodyLengthMismatch)
        } else {
            Ok(write_at(buf, w.start as int, body))
        },
        Err(e) => Err(e),
    }
}

/// A zero-initialized byte sequence of length `n`.
pub open spec fn zero_bytes(n: int) -> Seq<u8> {
    Seq::new(n as nat, |i: int| 0u8)
}

/// Filling the buffer window by window: apply each response in order, or
/// stop at the first failure, leaving no later window applied.
pub open spec fn spec_fill(buf: Seq<u8>, ws: Seq<SegmentWindow>, resps: Seq<Seq<u8>>) -> Result<
    Seq<u8>,
    ProtocolError,
>
    decreases ws.len(),
{
    if ws.len() == 0 {
        Ok(buf)
    } else {
        match spec_apply_segment(buf, ws.first(), resps.first()) {
            Ok(next) => spec_fill(next, ws.drop_first(), resps.drop_first()),
            Err(e) => Err(e),
        }
    }
}

/// The whole pipeline as a function of the observed response bytes: read
/// the total length from the size-discovery response, fill a zeroed buffer
/// of that length window by window from the segment responses, and digest
/// the reassembled bytes.
pub open spec fn spec_pipeline(
    size_resp: Seq<u8>,
    seg_resps: Seq<Seq<u8>>,
    packet: int,
) -> Result<Seq<u8>, ProtocolError> {
    match spec_total_length(size_resp) {
        Ok(total) => match spec_fill(
            zero_bytes(total as int),
            spec_windows(total as int, packet),
            seg_resps,
        ) {
            Ok(buf) => Ok(sha256_of(buf)),
            Err(e) => Err(e),
        },
        Err(e) => Err(e),
    }
}

/// Allocate the zero-initialized destination buffer for the whole resource.
pub fn new_buffer(total_length: u32) -> (r: Vec<u8>)
    ensures
        r@ == zero_bytes(total_length as int),
{
    let r = vec![0u8; total_length as usize];
    proof {
        assert(r@ =~= zero_bytes(total_length as int));
    }
    r
}

/// Apply one raw segment response to the destination buffer: frame it,
/// require the body's length to equal the window's length exactly, and copy
/// the body into the window. On any failure the buffer is left unchanged,
/// so regions already filled by prior segments are never corrupted.
pub fn apply_segment(buffer: &mut Vec<u8>, w: &SegmentWindow, resp: &Vec<u8>) -> (r: Result<
    (),
    ProtocolError,
>)
    requires
        w.start + w.length <= old(buffer)@.len(),
    ensures
        match r {
            Ok(()) => spec_apply_segment(old(buffer)@, *w, resp@) == Ok::<_, ProtocolError>(
                final(buffer)@,
            ),
            Err(e) => spec_apply_segment(old(buffer)@, *w, resp@) == Err::<Seq<u8>, _>(e)
                && final(buffer)@ == old(buffer)@,
        },
        final(buffer)@.len() == old(buffer)@.len(),
{
    let framed = match frame_response(resp) {
        Ok(f) => f,
        Err(e) => {
            return Err(e);
        },
    };
    let body = framed.body;
    if body.len() != w.length as usize {
        return Err(ProtocolError::BodyLengthMismatch);
    }
    let start = w.start as usize;
    let len = w.length as usize;
    proof {
        assert(old(buffer)@.len() == old(buffer).len());
    }
    let mut j: usize = 0;
    while j < len
        invariant
            0 <= j <= len,
            start + len <= usize::MAX,
            body@.len() == len,
            start + len <= buffer@.len(),
            buffer@.len() == old(buffer)@.len(),
            forall|k: int|
                0 <= k < buffer@.len() ==> #[trigger] buffer@[k] == (if start <= k < start + j {
                    body@[k - start]
                } else {
                    old(buffer)@[k]
                }),
        decreases len - j,
    {
        let b = body[j];
        buffer[start + j] = b;
        j = j + 1;
    }
    proof {
        assert(buffer@ =~= write_at(old(buffer)@, w.start as int, body@));
    }
    Ok(())
}

/// Fill a fresh zeroed buffer for the whole resource from one raw response
/// per window, in ascending window order, stopping at the first failure.
pub fn reassemble(total_length: u32, packet_size: u32, responses: &Vec<Vec<u8>>) -> (r: Result<
    Vec<u8>,
    ProtocolError,
>)
    requires
        packet_size > 0,
        responses@.len() == spec_windows(total_length as int, packet_size as int).len(),
    ensures
        match r {
            Ok(buf) => spec_fill(
                zero_bytes(total_length as int),
                spec_windows(total_length as int, packet_size as int),
                responses.deep_view(),
            ) == Ok::<_, ProtocolError>(buf@) && buf@.len() == total_length,
            Err(e) => spec_fill(
                zero_bytes(total_length as int),
                spec_windows(total_length as int, packet_size as int),
                responses.deep_view(),
            ) == Err::<Seq<u8>, _>(e),
        },
{
    let ghost all_ws = spec_windows(total_length as int, packet_size as int);
    let ghost all_resps = responses.deep_view();
    let windows = make_windows(total_length, packet_size);
    let mut buffer = new_buffer(total_length);
    proof {
        lemma_windows_tile(total_length as int, packet_size as int);
        assert(all_ws.skip(0) =~= all_ws);
        assert(all_resps.skip(0) =~= all_resps);
    }
    let n = windows.len();
    let mut i: usize = 0;
    while i < n
        invariant
            n == windows@.len(),
            windows@ == all_ws,
            all_ws == spec_windows(total_length as int, packet_size as int),
            all_resps == responses.deep_view(),
            responses@.len() == n,
            0 <= i <= n,
            buffer@.len() == total_length,
            forall|k: int|
                0 <= k < all_ws.len() ==> (#[trigger] all_ws[k].start) + all_ws[k].length
                    <= total_length,
            spec_fill(zero_bytes(total_length as int), all_ws, all_resps) == spec_fill(
                buffer@,
                all_ws.skip(i as int),
                all_resps.skip(i as int),
            ),
        decreases n - i,
    {
        let w = windows[i];
        let ghost pre = buffer@;
        let ghost ws_suf = all_ws.skip(i as int);
        let ghost resps_suf = all_resps.skip(i as int);
        proof {
            assert(ws_suf.first() == all_ws[i as int]);
            assert(resps_suf.first() == all_resps[i as int]);
            assert(all_resps[i as int] =~= responses@[i as int]@);
            assert(ws_suf.drop_first() =~= all_ws.skip(i as int + 1));
            assert(resps_suf.drop_first() =~= all_resps.skip(i as int + 1));
        }
        match apply_segment(&mut buffer, &w, &responses[i]) {
            Ok(()) => {},
            Err(e) => {
                proof {
                    assert(spec_fill(pre, ws_suf, resps_suf) == Err::<Seq<u8>, _>(e));
                }
                return Err(e);
            },
        }
        proof {
            assert(spec_fill(pre, ws_suf, resps_suf) == spec_fill(
                buffer@,
                all_ws.skip(i as int + 1),
                all_resps.skip(i as int + 1),
            ));
        }
        i = i + 1;
    }
    proof {
        assert(all_ws.skip(n as int) =~= Seq::<SegmentWindow>::empty());
    }
    Ok(buffer)
}

/// Run the computational half of the whole download: discover the total
/// length from the size-discovery response, reassemble the resource from
/// one raw response per segment window, and return its SHA-256 digest.
pub fn run_pipeline(
    size_response: &Vec<u8>,
    segment_responses: &Vec<Vec<u8>>,
    packet_size: u32,
) -> (r: Result<Vec<u8>, ProtocolError>)
    requires
        packet_size > 0,
        spec_total_length(size_response@) matches Ok(total) ==> segment_responses@.len()
            == spec_windows(total as int, packet_size as int).len(),
    ensures
        match r {
            Ok(d) => spec_pipeline(
                size_response@,
                segment_responses.deep_view(),
                packet_size as int,
            ) == Ok::<_, ProtocolError>(d@),
            Err(e) => spec_pipeline(
                size_response@,
                segment_responses.deep_view(),
                packet_size as int,
            ) == Err::<Seq<u8>, _>(e),
        },
{
    let total = match discover_total_length(size_response) {
        Ok(t) => t,
        Err(e) => {
            return Err(e);
        },
    };
    let buffer = match reassemble(total, packet_size, segment_responses) {
        Ok(b) => b,
        Err(e) => {
            return Err(e);
        },
    };
    Ok(digest_bytes(&buffer))
}

/// End of the tiled prefix: the end of window `k - 1`, or `0` when no
/// window has been applied yet.
pub open spec fn tiled_end(ws: Seq<SegmentWindow>, k: int) -> int {
    if k == 0 {
        0
    } else {
        ws[k - 1].start + ws[k - 1].length
    }
}

/// Every window of a tiling ends within the resource.
proof fn lemma_tile_window_bounds(ws: Seq<SegmentWindow>, total: int, k: int)
    requires
        windows_tile(ws, total),
        0 <= k < ws.len(),
    ensures
        ws[k].start + ws[k].length <= total,
    decreases ws.len() - k,
{
    if k == ws.len() - 1 {
    } else {
        lemma_tile_window_bounds(ws, total, k + 1);
    }
}

/// The window at `k` starts exactly where the tiled prefix ends.
proof fn lemma_tile_start(ws: Seq<SegmentWindow>, total: int, k: int)
    requires
        windows_tile(ws, total),
        0 <= k < ws.len(),
    ensures
        ws[k].start == tiled_end(ws, k),
{
    if k > 0 {
        assert(ws[(k - 1) + 1].start == ws[k - 1].start + ws[k - 1].length);
    }
}

/// The buffer equals the resource over the tiled prefix of the first `k`
/// windows, whenever every window's bytes match.
proof fn lemma_prefix_equal(ws: Seq<SegmentWindow>, buf: Seq<u8>, resource: Seq<u8>, k: int)
    requires
        windows_tile(ws, resource.len() as int),
        buf.len() == resource.len(),
        forall|i: int| 0 <= i < ws.len() ==> window_matches(buf, resource, #[trigger] ws[i]),
        0 <= k <= ws.len(),
    ensures
        0 <= tiled_end(ws, k) <= resource.len(),
        buf.take(tiled_end(ws, k)) == resource.take(tiled_end(ws, k)),
    decreases k,
{
    if k == 0 {
        assert(buf.take(0) =~= resource.take(0));
    } else {
        lemma_prefix_equal(ws, buf, resource, k - 1);
        lemma_tile_window_bounds(ws, resource.len() as int, k - 1);
        lemma_tile_start(ws, resource.len() as int, k - 1);
        let e0 = tiled_end(ws, k - 1);
        let e1 = tiled_end(ws, k);
        assert(window_matches(buf, resource, ws[k - 1]));
        assert(buf.take(e1) =~= buf.take(e0) + buf.subrange(e0, e1));
        assert(resource.take(e1) =~= resource.take(e0) + resource.subrange(e0, e1));
    }
}

/// The bytes of `buf` over the window `w` equal the resource's bytes there.
pub open spec fn window_matches(buf: Seq<u8>, resource: Seq<u8>, w: SegmentWindow) -> bool {
    buf.subrange(w.start as int, w.start + w.length) == resource.subrange(
        w.start as int,
        w.start + w.length,
    )
}

/// The byte-wise concatenation of every fetched segment window, ordered by
/// ascending start offset, equals the original resource's bytes exactly:
/// when windows tiling the resource each hold the resource's bytes for
/// their range, the whole reassembled buffer equals the resource.
pub proof fn lemma_reassembled_equals_resource(
    ws: Seq<SegmentWindow>,
    buf: Seq<u8>,
    resource: Seq<u8>,
)
    requires
        windows_tile(ws, resource.len() as int),
        buf.len() == resource.len(),
        forall|i: int| 0 <= i < ws.len() ==> window_matches(buf, resource, #[trigger] ws[i]),
    ensures
        buf == resource,
{
    if ws.len() == 0 {
        assert(buf =~= resource);
    } else {
        lemma_prefix_equal(ws, buf, resource, ws.len() as int);
        assert(tiled_end(ws, ws.len() as int) == resource.len());
        assert(buf.take(resource.len() as int) =~= buf);
        assert(resource.take(resource.len() as int) =~= resource);
    }
}

/// The response for window `w` frames successfully and its body holds
/// exactly the resource's bytes for `[w.start, w.start + w.length)`.
pub open spec fn response_delivers(resp: Seq<u8>, resource: Seq<u8>, w: SegmentWindow) -> bool {
    match spec_frame(resp) {
        Ok((header, body)) => body == resource.subrange(w.start as int, w.start + w.length),
        Err(_) => false,
    }
}

/// Filling from window `k` on: the suffix of the fill rewrites everything
/// from the end of the tiled prefix with the resource's own bytes.
proof fn lemma_fill_from(
    ws: Seq<SegmentWindow>,
    resps: Seq<Seq<u8>>,
    resource: Seq<u8>,
    buf: Seq<u8>,
    k: int,
)
    requires
        windows_tile(ws, resource.len() as int),
        buf.len() == resource.len(),
        resps.len() == ws.len(),
        0 <= k <= ws.len(),
        forall|i: int|
            k <= i < ws.len() ==> response_delivers(#[trigger] resps[i], resource, ws[i]),
    ensures
        spec_fill(buf, ws.skip(k), resps.skip(k)) == Ok::<_, ProtocolError>(
            buf.take(tiled_end(ws, k)) + resource.skip(tiled_end(ws, k)),
        ),
        0 <= tiled_end(ws, k) <= resource.len(),
    decreases ws.len() - k,
{
    if k == ws.len() {
        assert(ws.skip(k) =~= Seq::<SegmentWindow>::empty());
        assert(resps.skip(k) =~= Seq::<Seq<u8>>::empty());
        assert(buf.take(tiled_end(ws, k)) + resource.skip(tiled_end(ws, k)) =~= buf);
    } else {
        let w = ws[k];
        let s = w.start as int;
        let l = w.length as int;
        lemma_tile_window_bounds(ws, resource.len() as int, k);
        lemma_tile_start(ws, resource.len() as int, k);
        let body = resource.subrange(s, s + l);
        assert(response_delivers(resps[k], resource, w));
        assert(ws.skip(k).first() == w);
        assert(resps.skip(k).first() == resps[k]);
        let next = write_at(buf, s, body);
        assert(next.len() == resource.len()) by {
            assert(buf.take(s).len() == s);
            assert(buf.skip(s + l).len() == buf.len() - s - l);
        }
        assert(spec_apply_segment(buf, w, resps[k]) == Ok::<_, ProtocolError>(next));
        lemma_fill_from(ws, resps, resource, next, k + 1);
        assert(ws.skip(k).drop_first() =~= ws.skip(k + 1));
        assert(resps.skip(k).drop_first() =~= resps.skip(k + 1));
        let e0 = tiled_end(ws, k);
        let e1 = tiled_end(ws, k + 1);
        assert(e0 == s);
        assert(e1 == s + l);
        assert(next.take(e1) + resource.skip(e1) =~= buf.take(e0) + resource.skip(e0));
    }
}

/// When every segment response frames to a body holding exactly the
/// resource's bytes for its window, filling any buffer of the resource's
/// length succeeds and reconstructs the resource exactly: the pipeline
/// returns the original resource's bytes.
pub proof fn lemma_fill_reconstructs(
    ws: Seq<SegmentWindow>,
    resps: Seq<Seq<u8>>,
    resource: Seq<u8>,
    buf0: Seq<u8>,
)
    requires
        windows_tile(ws, resource.len() as int),
        buf0.len() == resource.len(),
        resps.len() == ws.len(),
        forall|i: int|
            0 <= i < ws.len() ==> response_delivers(#[trigger] resps[i], resource, ws[i]),
    ensures
        spec_fill(buf0, ws, resps) == Ok::<_, ProtocolError>(resource),
{
    lemma_fill_from(ws, resps, resource, buf0, 0);
    assert(ws.skip(0) =~= ws);
    assert(resps.skip(0) =~= resps);
    assert(buf0.take(0) + resource.skip(0) =~= resource);
}

/// The pipeline reconstructs and digests the original resource: when the
/// size-discovery response declares the resource's exact length and every
/// segment response delivers the resource's bytes for its window, the
/// pipeline returns exactly the digest of the original resource's bytes.
pub proof fn lemma_pipeline_digests_resource(
    size_resp: Seq<u8>,
    seg_resps: Seq<Seq<u8>>,
    resource: Seq<u8>,
    packet: int,
)
    requires
        0 < packet,
        resource.len() <= u32::MAX,
        spec_total_length(size_resp) == Ok::<u32, ProtocolError>(resource.len() as u32),
        seg_resps.len() == spec_windows(resource.len() as int, packet).len(),
        forall|i: int|
            0 <= i < seg_resps.len() ==> response_delivers(
                #[trigger] seg_resps[i],
                resource,
                spec_windows(resource.len() as int, packet)[i],
            ),
    ensures
        spec_pipeline(size_resp, seg_resps, packet) == Ok::<Seq<u8>, ProtocolError>(
            sha256_of(resource),
        ),
{
    lemma_windows_tile(resource.len() as int, packet);
    lemma_fill_reconstructs(
        spec_windows(resource.len() as int, packet),
        seg_resps,
        resource,
        zero_bytes(resource.len() as int),
    );
}

/// Running the full pipeline twice against an unchanged resource yields
/// identical digests: the pipeline's outcome is a function of the observed
/// response bytes alone, so two runs that see the same size-discovery
/// response and the same segment responses agree exactly.
pub proof fn lemma_pipeline_idempotent(
    size_a: Seq<u8>,
    segs_a: Seq<Seq<u8>>,
    size_b: Seq<u8>,
    segs_b: Seq<Seq<u8>>,
    packet: int,
)
    requires
        size_a == size_b,
        segs_a == segs_b,
    ensures
        spec_pipeline(size_a, segs_a, packet) == spec_pipeline(size_b, segs_b, packet),
{
}

} // verus!
