//! Deterministic mapping from address or label strings to vertex ids.

use std::str::FromStr;

use ethers::types::Address;
use uuid::Uuid;
use vstd::prelude::*;
use vstd::string::StringSliceAdditionalSpecFns;
use vstd::utf8::encode_utf8;

verus! {

/// A vertex id: the 128-bit value of a name-based (SHA-1, version 5) UUID.
pub type VertexId = u128;

/// How a seed string names its vertex.
#[derive(Clone, Copy, Debug, PartialEq, Eq, Structural)]
pub enum VType {
    /// A 20-byte hex address, hashed by its bytes.
    ETHAddress,
    /// Any label, hashed by its UTF-8 bytes.
    String,
}

/// Why a seed string could not be mapped to a vertex id.
#[derive(Clone, Copy, Debug, PartialEq, Eq, Structural)]
pub enum IdError {
    InvalidAddress,
}

pub open spec fn is_hex_digit(c: char) -> bool {
    ('0' <= c && c <= '9') || ('a' <= c && c <= 'f') || ('A' <= c && c <= 'F')
}

/// Characters that the hex reader skips between digits.
pub open spec fn is_hex_space(c: char) -> bool {
    c == ' ' || c == '\r' || c == '\n' || c == '\t'
}

pub open spec fn hex_value(c: char) -> int {
    if '0' <= c && c <= '9' {
        c as u32 - '0' as u32
    } else if 'a' <= c && c <= 'f' {
        c as u32 - 'a' as u32 + 10
    } else {
        c as u32 - 'A' as u32 + 10
    }
}

/// The text after an optional leading `0x`.
pub open spec fn strip_0x(s: Seq<char>) -> Seq<char> {
    if s.len() >= 2 && s[0] == '0' && s[1] == 'x' {
        s.subrange(2, s.len() as int)
    } else {
        s
    }
}

pub open spec fn is_digit_char() -> spec_fn(char) -> bool {
    |c: char| !is_hex_space(c)
}

/// The hex digits of an address string, in order.
pub open spec fn hex_digits(s: Seq<char>) -> Seq<char> {
    strip_0x(s).filter(is_digit_char())
}

/// A well-formed address: an optional `0x`, then exactly forty hex digits of
/// either case, with nothing else but skipped whitespace.
pub open spec fn is_address(s: Seq<char>) -> bool {
    &&& forall|i: int|
        0 <= i < strip_0x(s).len() ==> is_hex_digit(#[trigger] strip_0x(s)[i]) || is_hex_space(
            strip_0x(s)[i],
        )
    &&& hex_digits(s).len() == 40
}

/// The twenty bytes that a well-formed address spells, two digits per byte.
pub open spec fn address_bytes(s: Seq<char>) -> Seq<u8> {
    Seq::new(
        20,
        |i: int| (16 * hex_value(hex_digits(s)[2 * i]) + hex_value(hex_digits(s)[2 * i + 1])) as u8,
    )
}

/// The values of the digits of an address, in order; letter case does not
/// change a digit's value.
pub open spec fn digit_values(s: Seq<char>) -> Seq<int> {
    hex_digits(s).map_values(|c: char| hex_value(c))
}

/// The id that a version 5 UUID in the OID namespace gives to a name.
pub uninterp spec fn oid_v5(name: Seq<u8>) -> u128;

/// Relies on `<ethers::types::Address as FromStr>::from_str` (fixed-hash with
/// rustc-hex): an optional `0x` prefix is dropped, whitespace between digits is
/// skipped, and exactly forty hex digits of either case are read two per byte;
/// anything else is an error.
#[verifier::external_body]
fn parse_address(s: &str) -> (r: Option<Vec<u8>>)
    ensures
        r.is_some() <==> is_address(s@),
        r matches Some(b) ==> b@ == address_bytes(s@),
{
    match Address::from_str(s) {
        Ok(a) => Some(a.as_bytes().to_vec()),
        Err(_) => None,
    }
}

/// Relies on `uuid::Uuid::new_v5` with `Uuid::NAMESPACE_OID`, read back with
/// `as_u128`: a function of the name's bytes alone.
#[verifier::external_body]
fn oid_uuid(name: &[u8]) -> (r: u128)
    ensures
        r == oid_v5(name@),
{
    Uuid::new_v5(&Uuid::NAMESPACE_OID, name).as_u128()
}

/// The vertex id of an address: the address is validated and decoded to its
/// twenty bytes, which are then hashed.
pub fn addr_to_uuid(addr: &str) -> (r: Result<VertexId, IdError>)
    ensures
        is_address(addr@) ==> r == Ok::<VertexId, IdError>(oid_v5(address_bytes(addr@))),
        !is_address(addr@) ==> r == Err::<VertexId, IdError>(IdError::InvalidAddress),
{
    match parse_address(addr) {
        Some(bytes) => Ok(oid_uuid(bytes.as_slice())),
        None => Err(IdError::InvalidAddress),
    }
}

/// The vertex id of an address given as its bytes.
pub fn h160_to_uuid(bytes: &[u8]) -> (r: VertexId)
    ensures
        r == oid_v5(bytes@),
{
    oid_uuid(bytes)
}

/// The vertex id of an arbitrary label: its UTF-8 bytes are hashed directly.
pub fn str_to_uuid(label: &str) -> (r: VertexId)
    ensures
        r == oid_v5(label.spec_bytes()),
{
    oid_uuid(label.as_bytes())
}

/// The vertex id of a seed string read as `v_type` says.
pub fn vertex_id(label: &str, v_type: VType) -> (r: Result<VertexId, IdError>)
    ensures
        r == vertex_id_spec(label@, v_type),
{
    match v_type {
        VType::ETHAddress => addr_to_uuid(label),
        VType::String => Ok(str_to_uuid(label)),
    }
}

/// The vertex id of each seed string, in order; a malformed address gives
/// `InvalidAddress` for that seed alone.
pub fn seed_ids(labels: &Vec<String>, v_type: VType) -> (r: Vec<Result<VertexId, IdError>>)
    ensures
        r@.len() == labels@.len(),
        forall|i: int| 0 <= i < r@.len() ==> r@[i] == vertex_id_spec(#[trigger] labels@[i]@, v_type),
{
    let mut r: Vec<Result<VertexId, IdError>> = Vec::new();
    let mut i: usize = 0;
    while i < labels.len()
        invariant
            i <= labels.len(),
            r@.len() == i,
            forall|k: int| 0 <= k < i ==> r@[k] == vertex_id_spec(#[trigger] labels@[k]@, v_type),
        decreases labels.len() - i,
    {
        r.push(vertex_id(labels[i].as_str(), v_type));
        i = i + 1;
    }
    r
}

/// What `vertex_id` returns for a seed string.
pub open spec fn vertex_id_spec(s: Seq<char>, v_type: VType) -> Result<VertexId, IdError> {
    match v_type {
        VType::ETHAddress => addr_to_uuid_spec(s),
        VType::String => Ok(oid_v5(encode_utf8(s))),
    }
}

/// What `addr_to_uuid` returns for an address string.
pub open spec fn addr_to_uuid_spec(s: Seq<char>) -> Result<VertexId, IdError> {
    if is_address(s) {
        Ok(oid_v5(address_bytes(s)))
    } else {
        Err(IdError::InvalidAddress)
    }
}

proof fn lemma_filter_keeps_hex(t: Seq<char>)
    requires
        forall|i: int| 0 <= i < t.len() ==> is_hex_digit(#[trigger] t[i]) || is_hex_space(t[i]),
    ensures
        forall|i: int| 0 <= i < t.filter(is_digit_char()).len() ==> is_hex_digit(
            #[trigger] t.filter(is_digit_char())[i],
        ),
    decreases t.len(),
{
    if t.len() > 0 {
        let u = t.drop_last();
        assert forall|i: int| 0 <= i < u.len() implies is_hex_digit(#[trigger] u[i]) || is_hex_space(u[i]) by {
            assert(u[i] == t[i]);
        }
        lemma_filter_keeps_hex(u);
        let x = t.last();
        assert(is_hex_digit(x) || is_hex_space(x));
        let f = t.filter(is_digit_char());
        let g = u.filter(is_digit_char());
        reveal(Seq::filter);
        assert(f == if is_digit_char()(x) { g.push(x) } else { g });
        assert forall|i: int| 0 <= i < f.len() implies is_hex_digit(#[trigger] f[i]) by {
            if i < g.len() {
                assert(f[i] == g[i]);
            } else {
                assert(f[i] == x);
            }
        }
    }
}

proof fn lemma_digits_are_hex(s: Seq<char>)
    requires
        is_address(s),
    ensures
        forall|i: int| 0 <= i < hex_digits(s).len() ==> is_hex_digit(#[trigger] hex_digits(s)[i]),
{
    lemma_filter_keeps_hex(strip_0x(s));
}

/// Vertex ids of addresses depend on the digits' values alone, and decoding
/// loses nothing: two well-formed addresses hand the same bytes to the hash
/// (and so get the same id) exactly when their digits have the same values,
/// whatever the letter case, prefix or spacing.
pub proof fn lemma_address_identity(a: Seq<char>, b: Seq<char>)
    requires
        is_address(a),
        is_address(b),
    ensures
        digit_values(a) == digit_values(b) <==> address_bytes(a) == address_bytes(b),
        digit_values(a) == digit_values(b) ==> addr_to_uuid_spec(a) == addr_to_uuid_spec(b),
{
    lemma_digits_are_hex(a);
    lemma_digits_are_hex(b);
    let da = hex_digits(a);
    let db = hex_digits(b);
    if digit_values(a) == digit_values(b) {
        assert forall|i: int| 0 <= i < 20 implies address_bytes(a)[i] == address_bytes(b)[i] by {
            assert(digit_values(a)[2 * i] == digit_values(b)[2 * i]);
            assert(digit_values(a)[2 * i + 1] == digit_values(b)[2 * i + 1]);
        }
        assert(address_bytes(a) =~= address_bytes(b));
    }
    if address_bytes(a) == address_bytes(b) {
        assert forall|j: int| 0 <= j < 40 implies digit_values(a)[j] == digit_values(b)[j] by {
            let i = j / 2;
            assert(is_hex_digit(da[2 * i]) && is_hex_digit(da[2 * i + 1]));
            assert(is_hex_digit(db[2 * i]) && is_hex_digit(db[2 * i + 1]));
            let ha = hex_value(da[2 * i]);
            let la = hex_value(da[2 * i + 1]);
            let hb = hex_value(db[2 * i]);
            let lb = hex_value(db[2 * i + 1]);
            assert(0 <= ha < 16 && 0 <= la < 16 && 0 <= hb < 16 && 0 <= lb < 16);
            assert(address_bytes(a)[i] == address_bytes(b)[i]);
            assert(16 * ha + la == 16 * hb + lb);
            assert(ha == hb && la == lb) by (nonlinear_arith)
                requires
                    16 * ha + la == 16 * hb + lb,
                    0 <= ha < 16,
                    0 <= la < 16,
                    0 <= hb < 16,
                    0 <= lb < 16,
            ;
            assert(j == 2 * i || j == 2 * i + 1);
        }
        assert(digit_values(a) =~= digit_values(b));
    }
}

} // verus!
