//! The edge-list line format: the three fields of a row joined by one
//! delimiter byte and ended by a newline, as UTF-8.

use vstd::prelude::*;
use vstd::string::StringSliceAdditionalSpecFns;
use vstd::utf8::encode_utf8;

use crate::traversal::EdgeRow;

verus! {

/// The bytes of the line for `row`.
pub open spec fn line_bytes(row: EdgeRow, delimiter: u8) -> Seq<u8> {
    encode_utf8(row.from@) + seq![delimiter] + encode_utf8(row.to@) + seq![delimiter] + encode_utf8(
        row.label@,
    ) + seq![10u8]
}

fn push_bytes(out: &mut Vec<u8>, b: &[u8])
    ensures
        final(out)@ == old(out)@ + b@,
{
    let mut i: usize = 0;
    while i < b.len()
        invariant
            i <= b.len(),
            out@ == old(out)@ + b@.take(i as int),
        decreases b.len() - i,
    {
        out.push(b[i]);
        assert(old(out)@ + b@.take(i + 1) =~= (old(out)@ + b@.take(i as int)).push(b@[i as int]));
        i = i + 1;
    }
    assert(b@.take(b.len() as int) =~= b@);
}

/// The line for `row`: `from`, `to` and `label` separated by `delimiter`,
/// then `\n`.
pub fn edge_line(row: &EdgeRow, delimiter: u8) -> (r: Vec<u8>)
    ensures
        r@ == line_bytes(*row, delimiter),
{
    let mut out: Vec<u8> = Vec::new();
    push_bytes(&mut out, row.from.as_str().as_bytes());
    out.push(delimiter);
    push_bytes(&mut out, row.to.as_str().as_bytes());
    out.push(delimiter);
    push_bytes(&mut out, row.label.as_str().as_bytes());
    out.push(10u8);
    assert(out@ =~= line_bytes(*row, delimiter));
    out
}

} // verus!
