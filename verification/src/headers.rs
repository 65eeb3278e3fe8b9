//! Header-block scanning: split the header block into lines and read the
//! declared `Content-Length` (exact case-sensitive prefix match, decimal
//! value, whitespace-trimmed). A later `Content-Length` line overrides an
//! earlier one; a line whose value does not parse, a missing header, and a
//! zero length are each fatal.

use vstd::prelude::*;

verus! {

use crate::ProtocolError;
use crate::decimal::parse_decimal_u32;
use crate::decimal::parse_u32;
use crate::framing::CR;
use crate::framing::LF;
use crate::framing::spec_frame;
use crate::framing::frame_response;

/// The lines of `s`, split at line-feed bytes; a final line needs no
/// terminator, and a terminator at the end opens no empty extra line.
pub open spec fn split_lines(s: Seq<u8>) -> Seq<Seq<u8>>
    decreases s.len(),
{
    if s.len() == 0 {
        Seq::empty()
    } else if s.first() == LF {
        seq![Seq::<u8>::empty()] + split_lines(s.drop_first())
    } else {
        let rest = split_lines(s.drop_first());
        if rest.len() == 0 {
            seq![s]
        } else {
            seq![seq![s.first()] + rest.first()] + rest.drop_first()
        }
    }
}

/// When the first line feed of `s` stands at `k`, the first line is
/// `s.take(k)` and the remaining lines are those of `s.skip(k + 1)`.
proof fn lemma_split_lines_chunk(s: Seq<u8>, k: int)
    requires
        0 <= k < s.len(),
        s[k] == LF,
        forall|j: int| 0 <= j < k ==> s[j] != LF,
    ensures
        split_lines(s) =~~= seq![s.take(k)] + split_lines(s.skip(k + 1)),
    decreases k,
{
    if k == 0 {
        assert(s.take(0) =~= Seq::<u8>::empty());
        assert(s.skip(1) =~= s.drop_first());
    } else {
        lemma_split_lines_chunk(s.drop_first(), k - 1);
        let rest = split_lines(s.drop_first());
        assert(rest =~~= seq![s.drop_first().take(k - 1)] + split_lines(
            s.drop_first().skip(k),
        ));
        assert(rest.len() > 0);
        assert(seq![s.first()] + rest.first() =~= s.take(k));
        assert(s.drop_first().skip(k) =~= s.skip(k + 1));
        assert(split_lines(s) =~~= seq![s.take(k)] + split_lines(s.skip(k + 1)));
    }
}

/// A non-empty `s` without a line feed is one single line.
proof fn lemma_split_lines_whole(s: Seq<u8>)
    requires
        s.len() > 0,
        forall|j: int| 0 <= j < s.len() ==> s[j] != LF,
    ensures
        split_lines(s) =~~= seq![s],
    decreases s.len(),
{
    let rest = split_lines(s.drop_first());
    if s.drop_first().len() == 0 {
    } else {
        lemma_split_lines_whole(s.drop_first());
        assert(seq![s.first()] + rest.first() =~= s);
    }
}

/// A line with its trailing carriage return (left by splitting CR LF line
/// endings at the line feed) removed.
pub open spec fn strip_cr(l: Seq<u8>) -> Seq<u8> {
    if l.len() > 0 && l.last() == CR {
        l.drop_last()
    } else {
        l
    }
}

/// The bytes of `Content-Length:`.
pub open spec fn content_length_prefix() -> Seq<u8> {
    seq![67u8, 111u8, 110u8, 116u8, 101u8, 110u8, 116u8, 45u8, 76u8, 101u8, 110u8, 103u8, 116u8, 104u8, 58u8]
}

/// The line names the content length: it starts with the exact
/// case-sensitive bytes of `Content-Length:`.
pub open spec fn is_content_length_line(l: Seq<u8>) -> bool {
    strip_cr(l).len() >= 15 && strip_cr(l).take(15) == content_length_prefix()
}

/// The value a `Content-Length` line declares: the bytes after the colon,
/// whitespace-trimmed, read as a decimal `u32`.
pub open spec fn content_length_value(l: Seq<u8>) -> Option<u32> {
    parse_u32(strip_cr(l).skip(15))
}

/// Scan the header lines in order, carrying the value declared so far. The
/// last `Content-Length` line wins; any such line that does not parse is
/// fatal, as are a missing header and a zero value.
pub open spec fn scan_content_length(lines: Seq<Seq<u8>>, acc: Option<u32>) -> Result<
    u32,
    ProtocolError,
>
    decreases lines.len(),
{
    if lines.len() == 0 {
        match acc {
            Some(v) => if v == 0 {
                Err(ProtocolError::InvalidContentLength)
            } else {
                Ok(v)
            },
            None => Err(ProtocolError::MissingContentLength),
        }
    } else if is_content_length_line(lines.first()) {
        match content_length_value(lines.first()) {
            Some(v) => scan_content_length(lines.drop_first(), Some(v)),
            None => Err(ProtocolError::InvalidContentLength),
        }
    } else {
        scan_content_length(lines.drop_first(), acc)
    }
}

/// The content length a header block declares, or the error that stops the
/// run: the result of scanning all of its lines.
pub open spec fn spec_content_length(header: Seq<u8>) -> Result<u32, ProtocolError> {
    scan_content_length(split_lines(header), None)
}

/// The total length a whole raw response declares: frame it, then scan the
/// header block.
pub open spec fn spec_total_length(resp: Seq<u8>) -> Result<u32, ProtocolError> {
    match spec_frame(resp) {
        Ok((header, _)) => spec_content_length(header),
        Err(e) => Err(e),
    }
}

/// Decide whether a line starts with the exact bytes of `Content-Length:`.
fn line_is_content_length(line: &Vec<u8>) -> (r: bool)
    ensures
        r == is_content_length_line(line@),
{
    let n = line.len();
    let m: usize = if n > 0 && line[n - 1] == CR {
        n - 1
    } else {
        n
    };
    proof {
        assert(strip_cr(line@) =~= line@.take(m as int));
    }
    if m < 15 {
        return false;
    }
    let r = line[0] == 67 && line[1] == 111 && line[2] == 110 && line[3] == 116 && line[4] == 101
        && line[5] == 110 && line[6] == 116 && line[7] == 45 && line[8] == 76 && line[9] == 101
        && line[10] == 110 && line[11] == 103 && line[12] == 116 && line[13] == 104 && line[14]
        == 58;
    proof {
        if r {
            assert(strip_cr(line@).take(15) =~= content_length_prefix());
        } else {
            assert(strip_cr(line@).take(15) != content_length_prefix());
        }
    }
    r
}

/// Read the value of one `Content-Length` line.
fn line_content_length_value(line: &Vec<u8>) -> (r: Option<u32>)
    requires
        is_content_length_line(line@),
    ensures
        r == content_length_value(line@),
{
    let n = line.len();
    let m: usize = if n > 0 && line[n - 1] == CR {
        n - 1
    } else {
        n
    };
    proof {
        assert(strip_cr(line@) =~= line@.take(m as int));
    }
    let value = vstd::slice::slice_to_vec(vstd::slice::slice_subrange(line.as_slice(), 15, m));
    proof {
        assert(value@ =~= strip_cr(line@).skip(15));
    }
    parse_decimal_u32(&value)
}

/// Scan a header block for its declared `Content-Length`.
pub fn content_length_of_header(header: &Vec<u8>) -> (r: Result<u32, ProtocolError>)
    ensures
        r == spec_content_length(header@),
{
    let n = header.len();
    let mut pos: usize = 0;
    let mut acc: Option<u32> = None;
    proof {
        assert(header@.skip(0) =~= header@);
    }
    while pos < n
        invariant
            n == header.len(),
            0 <= pos <= n,
            scan_content_length(split_lines(header@), None) == scan_content_length(
                split_lines(header@.skip(pos as int)),
                acc,
            ),
        decreases n - pos,
    {
        let mut e: usize = pos;
        while e < n && header[e] != LF
            invariant
                n == header.len(),
                pos <= e <= n,
                forall|j: int| pos <= j < e ==> header@[j] != LF,
            decreases n - e,
        {
            e = e + 1;
        }
        let line = vstd::slice::slice_to_vec(vstd::slice::slice_subrange(
            header.as_slice(),
            pos,
            e,
        ));
        let next_pos: usize = if e < n {
            e + 1
        } else {
            n
        };
        let ghost remaining = header@.skip(pos as int);
        let ghost rest = split_lines(header@.skip(next_pos as int));
        proof {
            assert(line@ =~= remaining.take(e - pos));
            if e < n {
                assert(remaining[e - pos] == LF);
                lemma_split_lines_chunk(remaining, e - pos);
                assert(remaining.skip(e - pos + 1) =~= header@.skip(e + 1));
            } else {
                assert(remaining.len() > 0);
                lemma_split_lines_whole(remaining);
                assert(line@ =~= remaining);
                assert(header@.skip(n as int) =~= Seq::<u8>::empty());
            }
            assert(split_lines(remaining) =~~= seq![line@] + rest);
            assert((seq![line@] + rest).first() == line@);
            assert((seq![line@] + rest).drop_first() =~~= rest);
        }
        let ghost acc0 = acc;
        if line_is_content_length(&line) {
            match line_content_length_value(&line) {
                Some(v) => {
                    acc = Some(v);
                    proof {
                        assert(scan_content_length(split_lines(remaining), acc0)
                            == scan_content_length(rest, Some(v)));
                    }
                },
                None => {
                    proof {
                        assert(scan_content_length(split_lines(remaining), acc0) == Err::<
                            u32,
                            _,
                        >(ProtocolError::InvalidContentLength));
                    }
                    return Err(ProtocolError::InvalidContentLength);
                },
            }
        } else {
            proof {
                assert(scan_content_length(split_lines(remaining), acc0)
                    == scan_content_length(rest, acc0));
            }
        }
        pos = next_pos;
    }
    proof {
        assert(header@.skip(n as int) =~= Seq::<u8>::empty());
    }
    match acc {
        Some(v) => if v == 0 {
            Err(ProtocolError::InvalidContentLength)
        } else {
            Ok(v)
        },
        None => Err(ProtocolError::MissingContentLength),
    }
}

/// Discover the resource's total length from the raw bytes of the initial
/// whole-resource response: frame it, then scan the header block. The
/// result is strictly positive.
pub fn discover_total_length(resp: &Vec<u8>) -> (r: Result<u32, ProtocolError>)
    ensures
        r == spec_total_length(resp@),
        r matches Ok(total) ==> total > 0,
{
    let framed = match frame_response(resp) {
        Ok(f) => f,
        Err(e) => {
            return Err(e);
        },
    };
    let r = content_length_of_header(&framed.header);
    proof {
        lemma_scan_positive(split_lines(framed.header@), None);
    }
    r
}

/// A successful scan never yields zero.
proof fn lemma_scan_positive(lines: Seq<Seq<u8>>, acc: Option<u32>)
    ensures
        scan_content_length(lines, acc) matches Ok(v) ==> v > 0,
    decreases lines.len(),
{
    if lines.len() == 0 {
    } else if is_content_length_line(lines.first()) {
        match content_length_value(lines.first()) {
            Some(v) => {
                lemma_scan_positive(lines.drop_first(), Some(v));
            },
            None => {},
        }
    } else {
        lemma_scan_positive(lines.drop_first(), acc);
    }
}

} // verus!
