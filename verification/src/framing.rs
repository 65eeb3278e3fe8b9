//! Response framing: locate the blank line (CR LF CR LF) that terminates the
//! header block, and split a raw response into header block and body.

use vstd::prelude::*;

verus! {

use crate::ProtocolError;

/// Carriage-return byte.
pub const CR: u8 = 13;

/// Line-feed byte.
pub const LF: u8 = 10;

/// The four-byte blank-line sequence CR LF CR LF stands at position `i` of `s`.
pub open spec fn is_separator_at(s: Seq<u8>, i: int) -> bool {
    &&& 0 <= i
    &&& i + 4 <= s.len()
    &&& s[i] == CR
    &&& s[i + 1] == LF
    &&& s[i + 2] == CR
    &&& s[i + 3] == LF
}

/// Position of the first header/body separator at or after `i`, if any.
pub open spec fn first_separator_from(s: Seq<u8>, i: int) -> Option<int>
    decreases s.len() - i,
{
    if i < 0 || i + 4 > s.len() {
        None
    } else if is_separator_at(s, i) {
        Some(i)
    } else {
        first_separator_from(s, i + 1)
    }
}

/// `first_separator_from` returns the first separator position at or after
/// `i`, and `None` exactly when no separator stands at or after `i`.
pub proof fn lemma_first_separator_from(s: Seq<u8>, i: int)
    requires
        0 <= i,
    ensures
        match first_separator_from(s, i) {
            Some(k) => i <= k && is_separator_at(s, k) && forall|j: int|
                i <= j < k ==> !is_separator_at(s, j),
            None => forall|j: int| j >= i ==> !is_separator_at(s, j),
        },
    decreases s.len() - i,
{
    if i + 4 > s.len() {
    } else if is_separator_at(s, i) {
    } else {
        lemma_first_separator_from(s, i + 1);
    }
}

/// A raw response split at the first blank line: everything before it is the
/// header block, everything after it is the body.
#[derive(Debug, PartialEq, Eq)]
pub struct FramedResponse {
    pub header: Vec<u8>,
    pub body: Vec<u8>,
}

/// Framing at the specification level: header block and body around the
/// first CR LF CR LF, or an error when the sequence is absent.
pub open spec fn spec_frame(s: Seq<u8>) -> Result<(Seq<u8>, Seq<u8>), ProtocolError> {
    match first_separator_from(s, 0) {
        Some(i) => Ok((s.take(i), s.skip(i + 4))),
        None => Err(ProtocolError::MissingSeparator),
    }
}

/// Find the position of the first blank line separating the header block
/// from the body, scanning from the start of the response.
pub fn find_header_end(resp: &Vec<u8>) -> (r: Option<usize>)
    ensures
        match r {
            Some(i) => first_separator_from(resp@, 0) == Some(i as int) && is_separator_at(
                resp@,
                i as int,
            ) && forall|j: int| 0 <= j < i ==> !is_separator_at(resp@, j),
            None => first_separator_from(resp@, 0) is None && forall|j: int|
                !is_separator_at(resp@, j),
        },
{
    proof {
        lemma_first_separator_from(resp@, 0);
    }
    let n = resp.len();
    if n < 4 {
        return None;
    }
    let mut i: usize = 0;
    while i <= n - 4
        invariant
            resp.len() == n,
            4 <= n,
            0 <= i <= n - 3,
            first_separator_from(resp@, 0) == first_separator_from(resp@, i as int),
        decreases n - i,
    {
        if resp[i] == CR && resp[i + 1] == LF && resp[i + 2] == CR && resp[i + 3] == LF {
            proof {
                assert(is_separator_at(resp@, i as int));
                lemma_first_separator_from(resp@, 0);
            }
            return Some(i);
        }
        assert(!is_separator_at(resp@, i as int));
        i = i + 1;
    }
    None
}

/// Split one raw response into header block and body at the first blank
/// line; fail with `MissingSeparator` when the response holds none.
pub fn frame_response(resp: &Vec<u8>) -> (r: Result<FramedResponse, ProtocolError>)
    ensures
        match r {
            Ok(f) => spec_frame(resp@) == Ok::<_, ProtocolError>((f.header@, f.body@)),
            Err(e) => spec_frame(resp@) == Err::<(Seq<u8>, Seq<u8>), _>(e),
        },
{
    match find_header_end(resp) {
        Some(i) => {
            proof {
                assert(is_separator_at(resp@, i as int));
                assert(i as int + 4 <= resp@.len());
                assert(resp@.len() == resp.len());
            }
            let header = vstd::slice::slice_to_vec(vstd::slice::slice_subrange(
                resp.as_slice(),
                0,
                i,
            ));
            let body = vstd::slice::slice_to_vec(vstd::slice::slice_subrange(
                resp.as_slice(),
                i + 4,
                resp.len(),
            ));
            proof {
                assert(header@ =~= resp@.take(i as int));
                assert(body@ =~= resp@.skip(i as int + 4));
            }
            Ok(FramedResponse { header, body })
        },
        None => Err(ProtocolError::MissingSeparator),
    }
}

} // verus!
