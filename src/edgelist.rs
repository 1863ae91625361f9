//! Reading the two endpoints off one line of an edge-list file.

use vstd::prelude::*;

verus! {

/// The characters with the Unicode `White_Space` property.
pub open spec fn is_white_space(c: char) -> bool {
    ||| ('\u{9}' <= c && c <= '\u{d}')
    ||| c == ' '
    ||| c == '\u{85}'
    ||| c == '\u{a0}'
    ||| c == '\u{1680}'
    ||| ('\u{2000}' <= c && c <= '\u{200a}')
    ||| c == '\u{2028}'
    ||| c == '\u{2029}'
    ||| c == '\u{202f}'
    ||| c == '\u{205f}'
    ||| c == '\u{3000}'
}

/// The maximal runs of characters without white space, in order.
pub open spec fn whitespace_fields(s: Seq<char>) -> Seq<Seq<char>>
    decreases s.len(),
{
    if s.len() == 0 {
        seq![]
    } else {
        let before = whitespace_fields(s.drop_last());
        let c = s.last();
        if is_white_space(c) {
            before
        } else if s.len() >= 2 && !is_white_space(s[s.len() - 2]) {
            before.update(before.len() - 1, before.last().push(c))
        } else {
            before.push(seq![c])
        }
    }
}

/// The pieces between commas, empty ones included; one empty piece for an
/// empty line.
pub open spec fn comma_fields(s: Seq<char>) -> Seq<Seq<char>>
    decreases s.len(),
{
    if s.len() == 0 {
        seq![Seq::empty()]
    } else {
        let before = comma_fields(s.drop_last());
        if s.last() == ',' {
            before.push(Seq::empty())
        } else {
            before.update(before.len() - 1, before.last().push(s.last()))
        }
    }
}

/// The fields that name the endpoints of an edge-list line: the
/// whitespace-separated ones, or the comma-separated ones when there are
/// fewer than two of those.
pub open spec fn line_fields(s: Seq<char>) -> Seq<Seq<char>> {
    if whitespace_fields(s).len() >= 2 {
        whitespace_fields(s)
    } else {
        comma_fields(s)
    }
}

/// Relies on `str::split_whitespace`: the substrings between runs of
/// `White_Space` characters, empty ones left out, in order.
#[verifier::external_body]
fn split_whitespace(s: &str) -> (r: Vec<String>)
    ensures
        r@.len() == whitespace_fields(s@).len(),
        forall|i: int| 0 <= i < r@.len() ==> (#[trigger] r@[i])@ == whitespace_fields(s@)[i],
{
    s.split_whitespace().map(|f| f.to_string()).collect()
}

/// Relies on `str::split` with the pattern `','`: the substrings between
/// commas, empty ones included, in order.
#[verifier::external_body]
fn split_commas(s: &str) -> (r: Vec<String>)
    ensures
        r@.len() == comma_fields(s@).len(),
        forall|i: int| 0 <= i < r@.len() ==> (#[trigger] r@[i])@ == comma_fields(s@)[i],
{
    s.split(',').map(|f| f.to_string()).collect()
}

/// The two endpoints that an edge-list line names: its first two fields;
/// `None` when it has fewer than two.
pub fn line_endpoints(line: &str) -> (r: Option<(String, String)>)
    ensures
        r is Some <==> line_fields(line@).len() >= 2,
        r matches Some((a, b)) ==> a@ == line_fields(line@)[0] && b@ == line_fields(line@)[1],
{
    let mut fields = split_whitespace(line);
    if fields.len() < 2 {
        fields = split_commas(line);
    }
    if fields.len() < 2 {
        None
    } else {
        Some((fields[0].clone(), fields[1].clone()))
    }
}

} // verus!
