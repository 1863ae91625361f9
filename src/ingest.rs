//! What the store receives for one chain transaction: the two endpoint
//! vertices, keyed by the ids of their addresses and labelled with the
//! checksummed spelling, and the edge labelled by the transaction hash.

use ethers::types::Address;
use vstd::prelude::*;

use crate::identity::{addr_to_uuid_spec, address_bytes, h160_to_uuid, is_address, oid_v5, VertexId};

verus! {

/// The EIP-55 checksummed spelling of an address.
pub uninterp spec fn checksum_of(addr: Seq<u8>) -> Seq<char>;

pub open spec fn lower_hex_digit(n: int) -> char {
    seq!['0', '1', '2', '3', '4', '5', '6', '7', '8', '9', 'a', 'b', 'c', 'd', 'e', 'f'][n]
}

/// Two lower-case hex digits per byte, high nibble first.
pub open spec fn hex_lower(b: Seq<u8>) -> Seq<char> {
    Seq::new(
        2 * b.len(),
        |i: int|
            if i % 2 == 0 {
                lower_hex_digit(b[i / 2] as int / 16)
            } else {
                lower_hex_digit(b[i / 2] as int % 16)
            },
    )
}

/// Relies on `ethers::utils::to_checksum` with no chain id: `0x` and then
/// the forty hex digits of the address, each letter upper- or lower-case as
/// the address's Keccak hash decides. It therefore spells the same twenty
/// bytes.
#[verifier::external_body]
fn checksum_address(addr: &[u8]) -> (r: String)
    requires
        addr@.len() == 20,
    ensures
        r@ == checksum_of(addr@),
        is_address(r@),
        address_bytes(r@) == addr@,
{
    ethers::utils::to_checksum(&Address::from_slice(addr), None)
}

/// Relies on `ethers::utils::hex::encode`: two lower-case hex digits per
/// byte, no prefix.
#[verifier::external_body]
fn hex_encode(b: &[u8]) -> (r: String)
    ensures
        r@ == hex_lower(b@),
{
    ethers::utils::hex::encode(b)
}

/// The store entries for one transaction.
#[derive(Debug)]
pub struct EdgePlan {
    pub from_id: VertexId,
    pub from_label: String,
    pub to_id: VertexId,
    pub to_label: String,
    pub label: String,
    pub is_create: bool,
}

/// The recipient of a transaction: its `to`, or else the contract it created.
pub open spec fn recipient(to: Option<Vec<u8>>, contract_address: Option<Vec<u8>>) -> Option<Seq<u8>> {
    match to {
        Some(t) => Some(t@),
        None => match contract_address {
            Some(c) => Some(c@),
            None => None,
        },
    }
}

/// The store entries for a transaction from `from` with hash `hash`, sent to
/// `to` or creating `contract_address`; `None` when no recipient is known.
/// Each vertex is labelled with a spelling of its address that maps back to
/// its id.
pub fn plan_transaction(
    from: &[u8],
    to: &Option<Vec<u8>>,
    contract_address: &Option<Vec<u8>>,
    hash: &[u8],
) -> (r: Option<EdgePlan>)
    requires
        from@.len() == 20,
        to matches Some(t) ==> t@.len() == 20,
        contract_address matches Some(c) ==> c@.len() == 20,
    ensures
        r is Some <==> recipient(*to, *contract_address) is Some,
        r matches Some(p) ==> {
            let dest = recipient(*to, *contract_address)->Some_0;
            &&& p.from_id == oid_v5(from@)
            &&& p.from_label@ == checksum_of(from@)
            &&& p.to_id == oid_v5(dest)
            &&& p.to_label@ == checksum_of(dest)
            &&& p.label@ == hex_lower(hash@)
            &&& p.is_create == contract_address is Some
            &&& addr_to_uuid_spec(p.from_label@) == Ok::<VertexId, crate::identity::IdError>(p.from_id)
            &&& addr_to_uuid_spec(p.to_label@) == Ok::<VertexId, crate::identity::IdError>(p.to_id)
        },
{
    let dest: &[u8] = match to {
        Some(t) => t.as_slice(),
        None => match contract_address {
            Some(c) => c.as_slice(),
            None => {
                return None;
            },
        },
    };
    Some(
        EdgePlan {
            from_id: h160_to_uuid(from),
            from_label: checksum_address(from),
            to_id: h160_to_uuid(dest),
            to_label: checksum_address(dest),
            label: hex_encode(hash),
            is_create: contract_address.is_some(),
        },
    )
}

/// What the loader does with one record of an edge-list file.
#[derive(Clone, Copy, Debug, PartialEq, Eq, Structural)]
pub enum LoadStep {
    /// The record was loaded by an earlier run.
    Skip,
    /// Add the record to the current batch.
    Add,
    /// Add the record, then write the batch out.
    AddAndFlush,
}

/// Where loading resumes: at `requested` records, or, when that is 0, after
/// the `stored` edges already in the store.
pub fn resume_point(requested: usize, stored: usize) -> (r: usize)
    ensures
        r == if requested == 0 { stored } else { requested },
{
    if requested == 0 {
        stored
    } else {
        requested
    }
}

/// The step for the record at `index` when loading resumes at `skip` and
/// writes batches that close at every `bulk`-th record of the file.
pub fn load_step(index: usize, skip: usize, bulk: usize) -> (r: LoadStep)
    requires
        bulk > 0,
    ensures
        index < skip ==> r == LoadStep::Skip,
        index >= skip && index % bulk == bulk - 1 ==> r == LoadStep::AddAndFlush,
        index >= skip && index % bulk != bulk - 1 ==> r == LoadStep::Add,
{
    if index < skip {
        LoadStep::Skip
    } else if index % bulk == bulk - 1 {
        LoadStep::AddAndFlush
    } else {
        LoadStep::Add
    }
}

} // verus!
