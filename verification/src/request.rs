//! Request building: the exact bytes of the two `GET /` requests the
//! pipeline sends, one unconditional for size discovery and one carrying a
//! `Range` header for each segment window.

use vstd::prelude::*;

verus! {

use crate::decimal::dec_digits;
use crate::decimal::push_decimal;
use crate::windows::SegmentWindow;

/// The bytes of `GET / HTTP/1.1` followed by CR LF.
pub open spec fn request_line() -> Seq<u8> {
    seq![71u8, 69u8, 84u8, 32u8, 47u8, 32u8, 72u8, 84u8, 84u8, 80u8, 47u8, 49u8, 46u8, 49u8, 13u8, 10u8]
}

/// The bytes of `Host: `.
pub open spec fn host_prefix() -> Seq<u8> {
    seq![72u8, 111u8, 115u8, 116u8, 58u8, 32u8]
}

/// The bytes of `Connection: close` followed by CR LF.
pub open spec fn connection_line() -> Seq<u8> {
    seq![67u8, 111u8, 110u8, 110u8, 101u8, 99u8, 116u8, 105u8, 111u8, 110u8, 58u8, 32u8, 99u8, 108u8, 111u8, 115u8, 101u8, 13u8, 10u8]
}

/// The bytes of `Range: bytes=`.
pub open spec fn range_prefix() -> Seq<u8> {
    seq![82u8, 97u8, 110u8, 103u8, 101u8, 58u8, 32u8, 98u8, 121u8, 116u8, 101u8, 115u8, 61u8]
}

/// CR LF on its own: the blank line that ends a request's header block.
pub open spec fn blank_line() -> Seq<u8> {
    seq![13u8, 10u8]
}

/// The whole-resource request sent for size discovery:
/// `GET / HTTP/1.1`, `Host: <addr>`, `Connection: close`, blank line.
pub open spec fn spec_size_request(addr: Seq<u8>) -> Seq<u8> {
    request_line() + host_prefix() + addr + blank_line() + connection_line() + blank_line()
}

/// The range request for the window `[start, start + length)`: the size
/// discovery request with a `Range: bytes=<start>-<start + length - 1>`
/// header before the blank line. The upper bound is inclusive, so exactly
/// `length` bytes are requested.
pub open spec fn spec_range_request(addr: Seq<u8>, w: SegmentWindow) -> Seq<u8> {
    request_line() + host_prefix() + addr + blank_line() + connection_line() + range_prefix()
        + dec_digits(w.start as int) + seq![45u8] + dec_digits(w.start + w.length - 1) + blank_line()
        + blank_line()
}

/// Append `GET / HTTP/1.1` CR LF.
fn push_request_line(out: &mut Vec<u8>)
    ensures
        final(out)@ == old(out)@ + request_line(),
{
    out.push(71);
    out.push(69);
    out.push(84);
    out.push(32);
    out.push(47);
    out.push(32);
    out.push(72);
    out.push(84);
    out.push(84);
    out.push(80);
    out.push(47);
    out.push(49);
    out.push(46);
    out.push(49);
    out.push(13);
    out.push(10);
    proof {
        assert(out@ =~= old(out)@ + request_line());
    }
}

/// Append `Host: ` followed by the endpoint address and CR LF.
fn push_host_line(out: &mut Vec<u8>, addr: &[u8])
    ensures
        final(out)@ == old(out)@ + host_prefix() + addr@ + blank_line(),
{
    out.push(72);
    out.push(111);
    out.push(115);
    out.push(116);
    out.push(58);
    out.push(32);
    let ghost mid = out@;
    let mut i: usize = 0;
    while i < addr.len()
        invariant
            0 <= i <= addr@.len(),
            out@ == mid + addr@.take(i as int),
        decreases addr@.len() - i,
    {
        let b = *vstd::slice::slice_index_get(addr, i);
        out.push(b);
        proof {
            assert(out@ =~= mid + addr@.take(i as int + 1));
        }
        i = i + 1;
    }
    out.push(13);
    out.push(10);
    proof {
        assert(addr@.take(addr@.len() as int) =~= addr@);
        assert(out@ =~= old(out)@ + host_prefix() + addr@ + blank_line());
    }
}

/// Append `Connection: close` CR LF.
fn push_connection_line(out: &mut Vec<u8>)
    ensures
        final(out)@ == old(out)@ + connection_line(),
{
    out.push(67);
    out.push(111);
    out.push(110);
    out.push(110);
    out.push(101);
    out.push(99);
    out.push(116);
    out.push(105);
    out.push(111);
    out.push(110);
    out.push(58);
    out.push(32);
    out.push(99);
    out.push(108);
    out.push(111);
    out.push(115);
    out.push(101);
    out.push(13);
    out.push(10);
    proof {
        assert(out@ =~= old(out)@ + connection_line());
    }
}

/// Build the unconditional whole-resource request for size discovery.
pub fn build_size_request(addr: &[u8]) -> (r: Vec<u8>)
    ensures
        r@ == spec_size_request(addr@),
{
    let mut out: Vec<u8> = Vec::new();
    push_request_line(&mut out);
    push_host_line(&mut out, addr);
    push_connection_line(&mut out);
    out.push(13);
    out.push(10);
    proof {
        assert(out@ =~= spec_size_request(addr@));
    }
    out
}

/// Build the range request for one segment window. The range's upper bound
/// is inclusive and is deliberately written as `start + length - 1`, so the
/// request asks for exactly the `length` bytes of the window.
pub fn build_range_request(addr: &[u8], w: &SegmentWindow) -> (r: Vec<u8>)
    requires
        w.length > 0,
        w.start + w.length <= u32::MAX,
    ensures
        r@ == spec_range_request(addr@, *w),
{
    let mut out: Vec<u8> = Vec::new();
    push_request_line(&mut out);
    push_host_line(&mut out, addr);
    push_connection_line(&mut out);
    out.push(82);
    out.push(97);
    out.push(110);
    out.push(103);
    out.push(101);
    out.push(58);
    out.push(32);
    out.push(98);
    out.push(121);
    out.push(116);
    out.push(101);
    out.push(115);
    out.push(61);
    push_decimal(&mut out, w.start);
    out.push(45);
    push_decimal(&mut out, w.start + (w.length - 1));
    out.push(13);
    out.push(10);
    out.push(13);
    out.push(10);
    proof {
        assert(out@ =~= spec_range_request(addr@, *w));
    }
    out
}

} // verus!
