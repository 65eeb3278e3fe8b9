//! Segment windows: partition `[0, total_length)` into fixed-size half-open
//! byte ranges, each fetched by one range request. The windows exactly tile
//! the resource: the first starts at zero, each next one starts where the
//! previous ends, and the last ends exactly at the total length.

use vstd::prelude::*;

verus! {

/// A half-open byte range `[start, start + length)` of the resource.
#[derive(Clone, Copy, Debug, PartialEq, Eq, Structural)]
pub struct SegmentWindow {
    pub start: u32,
    pub length: u32,
}

/// The windows that partition `[start, total)` into packets of `packet`
/// bytes, a final shorter window covering any remainder.
pub open spec fn spec_windows_from(total: int, packet: int, start: int) -> Seq<SegmentWindow>
    decreases total - start,
    when 0 < packet && 0 <= start
{
    if start >= total {
        Seq::empty()
    } else {
        let len = if total - start < packet {
            total - start
        } else {
            packet
        };
        seq![SegmentWindow { start: start as u32, length: len as u32 }] + spec_windows_from(
            total,
            packet,
            start + len,
        )
    }
}

/// The windows that partition `[0, total)`.
pub open spec fn spec_windows(total: int, packet: int) -> Seq<SegmentWindow> {
    spec_windows_from(total, packet, 0)
}

/// The windows exactly tile `[0, total)`: there are none only for an empty
/// resource; the first starts at zero; each subsequent window starts where
/// the previous one ends; the last ends exactly at `total`; every window is
/// non-empty. No gaps and no overlaps.
pub open spec fn windows_tile(ws: Seq<SegmentWindow>, total: int) -> bool {
    &&& (ws.len() == 0 <==> total == 0)
    &&& (ws.len() > 0 ==> ws[0].start == 0)
    &&& (ws.len() > 0 ==> ws.last().start + ws.last().length == total)
    &&& (forall|i: int|
        0 <= i < ws.len() - 1 ==> (#[trigger] ws[i + 1].start) == ws[i].start + ws[i].length)
    &&& (forall|i: int| 0 <= i < ws.len() ==> 0 < (#[trigger] ws[i].length))
}

/// Tiling of a suffix: the windows from `start` tile `[start, total)`.
proof fn lemma_windows_from_tile(total: int, packet: int, start: int)
    requires
        0 < packet,
        0 <= start <= total,
        total <= u32::MAX,
    ensures
        ({
            let ws = spec_windows_from(total, packet, start);
            &&& (ws.len() == 0 <==> start == total)
            &&& (ws.len() > 0 ==> ws[0].start == start)
            &&& (ws.len() > 0 ==> ws.last().start + ws.last().length == total)
            &&& (forall|i: int|
                0 <= i < ws.len() - 1 ==> (#[trigger] ws[i + 1].start) == ws[i].start
                    + ws[i].length)
            &&& (forall|i: int| 0 <= i < ws.len() ==> 0 < (#[trigger] ws[i].length))
            &&& (forall|i: int|
                0 <= i < ws.len() ==> (#[trigger] ws[i].start) + ws[i].length <= total)
        }),
    decreases total - start,
{
    if start < total {
        let len: int = if total - start < packet {
            total - start
        } else {
            packet
        };
        lemma_windows_from_tile(total, packet, start + len);
        let ws = spec_windows_from(total, packet, start);
        let tail = spec_windows_from(total, packet, start + len);
        let w0 = SegmentWindow { start: start as u32, length: len as u32 };
        assert(ws == seq![w0] + tail);
        assert(ws[0] == w0);
        if tail.len() > 0 {
            assert(ws.last() == tail.last());
        }
        assert forall|i: int| 0 <= i < ws.len() - 1 implies (#[trigger] ws[i + 1].start)
            == ws[i].start + ws[i].length by {
            if i == 0 {
                assert(ws[1] == tail[0]);
            } else {
                assert(ws[i] == tail[i - 1]);
                assert(ws[i + 1] == tail[i]);
                assert(tail[(i - 1) + 1].start == tail[i - 1].start + tail[i - 1].length);
            }
        }
        assert forall|i: int| 0 <= i < ws.len() implies 0 < (#[trigger] ws[i].length)
            && ws[i].start + ws[i].length <= total by {
            if i > 0 {
                assert(ws[i] == tail[i - 1]);
            }
        }
    }
}

/// The generated windows exactly tile `[0, total)`: the first window starts
/// at 0, each subsequent window starts where the previous ends, and the
/// last window ends exactly at `total`, with no gaps and no overlaps.
pub proof fn lemma_windows_tile(total: int, packet: int)
    requires
        0 < packet,
        0 <= total <= u32::MAX,
    ensures
        windows_tile(spec_windows(total, packet), total),
        forall|i: int|
            0 <= i < spec_windows(total, packet).len() ==> (#[trigger] spec_windows(
                total,
                packet,
            )[i].start) + spec_windows(total, packet)[i].length <= total,
{
    lemma_windows_from_tile(total, packet, 0);
}

/// Every window but the last has exactly `packet` bytes.
proof fn lemma_windows_from_full(total: int, packet: int, start: int)
    requires
        0 < packet <= u32::MAX,
        0 <= start <= total,
        total <= u32::MAX,
    ensures
        forall|i: int|
            0 <= i < spec_windows_from(total, packet, start).len() - 1 ==> (
            #[trigger] spec_windows_from(total, packet, start)[i].length) == packet,
    decreases total - start,
{
    if start < total {
        let len: int = if total - start < packet {
            total - start
        } else {
            packet
        };
        lemma_windows_from_full(total, packet, start + len);
        let ws = spec_windows_from(total, packet, start);
        let tail = spec_windows_from(total, packet, start + len);
        assert(ws == seq![SegmentWindow { start: start as u32, length: len as u32 }] + tail);
        assert forall|i: int| 0 <= i < ws.len() - 1 implies (#[trigger] ws[i].length)
            == packet by {
            if i == 0 {
                assert(tail.len() > 0);
                assert(start + len < total);
                assert(len == packet);
            } else {
                assert(ws[i] == tail[i - 1]);
            }
        }
    }
}

/// A resource whose length is an exact multiple of the packet size produces
/// no trailing short window: every generated window has exactly `packet`
/// bytes.
pub proof fn lemma_exact_multiple_no_short_window(total: int, packet: int)
    requires
        0 < packet <= u32::MAX,
        0 <= total <= u32::MAX,
        total % packet == 0,
    ensures
        forall|i: int|
            0 <= i < spec_windows(total, packet).len() ==> (#[trigger] spec_windows(
                total,
                packet,
            )[i].length) == packet,
{
    lemma_exact_multiple_from(total, packet, 0);
}

/// Helper: when the remainder `total - start` is a multiple of `packet`,
/// every window from `start` on is full.
proof fn lemma_exact_multiple_from(total: int, packet: int, start: int)
    requires
        0 < packet <= u32::MAX,
        0 <= start <= total,
        total <= u32::MAX,
        (total - start) % packet == 0,
    ensures
        forall|i: int|
            0 <= i < spec_windows_from(total, packet, start).len() ==> (
            #[trigger] spec_windows_from(total, packet, start)[i].length) == packet,
    decreases total - start,
{
    if start < total {
        assert(total - start >= packet) by (nonlinear_arith)
            requires
                0 < packet,
                0 < total - start,
                (total - start) % packet == 0,
        ;
        assert((total - (start + packet)) % packet == 0) by (nonlinear_arith)
            requires
                0 < packet,
                (total - start) % packet == 0,
        ;
        lemma_exact_multiple_from(total, packet, start + packet);
        let ws = spec_windows_from(total, packet, start);
        let tail = spec_windows_from(total, packet, start + packet);
        assert(ws == seq![SegmentWindow { start: start as u32, length: packet as u32 }] + tail);
        assert forall|i: int| 0 <= i < ws.len() implies (#[trigger] ws[i].length) == packet by {
            if i > 0 {
                assert(ws[i] == tail[i - 1]);
            }
        }
    }
}

/// A non-empty resource shorter than the packet size produces exactly one
/// window, spanning the whole resource.
pub proof fn lemma_short_resource_single_window(total: int, packet: int)
    requires
        0 < total < packet,
        total <= u32::MAX,
    ensures
        spec_windows(total, packet) =~= seq![
            SegmentWindow { start: 0u32, length: total as u32 },
        ],
{
    assert(spec_windows_from(total, packet, total) =~= Seq::<SegmentWindow>::empty());
}

/// Partition `[0, total_length)` into windows of `packet_size` bytes, with
/// a final shorter window covering any remainder.
pub fn make_windows(total_length: u32, packet_size: u32) -> (r: Vec<SegmentWindow>)
    requires
        packet_size > 0,
    ensures
        r@ == spec_windows(total_length as int, packet_size as int),
        windows_tile(r@, total_length as int),
        forall|i: int|
            0 <= i < r@.len() ==> (#[trigger] r@[i].start) + r@[i].length <= total_length,
{
    let mut r: Vec<SegmentWindow> = Vec::new();
    let mut start: u32 = 0;
    proof {
        assert(r@ + spec_windows_from(total_length as int, packet_size as int, 0)
            =~= spec_windows(total_length as int, packet_size as int));
    }
    while start < total_length
        invariant
            packet_size > 0,
            start <= total_length,
            spec_windows(total_length as int, packet_size as int) == r@ + spec_windows_from(
                total_length as int,
                packet_size as int,
                start as int,
            ),
        decreases total_length - start,
    {
        let remaining = total_length - start;
        let len = if remaining < packet_size {
            remaining
        } else {
            packet_size
        };
        let ghost r0 = r@;
        r.push(SegmentWindow { start, length: len });
        proof {
            assert(r@ =~= r0 + seq![SegmentWindow { start, length: len }]);
            assert(r0 + spec_windows_from(
                total_length as int,
                packet_size as int,
                start as int,
            ) =~= r@ + spec_windows_from(
                total_length as int,
                packet_size as int,
                start as int + len as int,
            ));
        }
        start = start + len;
    }
    proof {
        assert(spec_windows_from(total_length as int, packet_size as int, start as int)
            =~= Seq::<SegmentWindow>::empty());
        assert(r@ =~= spec_windows(total_length as int, packet_size as int));
        lemma_windows_tile(total_length as int, packet_size as int);
    }
    r
}

} // verus!
