//! Principals (as their bytes), their text, and ledger account identifiers.
use vstd::prelude::*;

verus! {

/// The longest byte string that a principal can be.
pub const MAX_PRINCIPAL_LEN: usize = 29;

/// Whether `bytes` can be the bytes of a principal.
pub open spec fn is_principal(bytes: Seq<u8>) -> bool {
    bytes.len() <= MAX_PRINCIPAL_LEN
}

/// The bytes of the anonymous principal.
pub open spec fn anonymous_bytes() -> Seq<u8> {
    seq![4u8]
}

/// The bytes of the cycles minting canister on the mainnet.
pub open spec fn cycles_minting_bytes() -> Seq<u8> {
    seq![0u8, 0u8, 0u8, 0u8, 0u8, 0u8, 0u8, 4u8, 1u8, 1u8]
}

/// The 32-byte subaccount of a principal: its length, its bytes, then zeros.
pub open spec fn spec_subaccount(principal: Seq<u8>) -> Seq<u8> {
    seq![principal.len() as u8] + principal + Seq::new((31 - principal.len()) as nat, |i: int| 0u8)
}

/// The textual form of the principal with the given bytes.
pub uninterp spec fn principal_text(bytes: Seq<u8>) -> Seq<char>;

/// The account identifier of the given owner principal and subaccount.
pub uninterp spec fn account_identifier(owner: Seq<u8>, subaccount: Seq<u8>) -> Seq<u8>;

/// `candid::Principal::anonymous()`: the principal whose one byte is the
/// anonymous tag 4.
#[verifier::external_body]
pub(crate) fn anonymous_principal() -> (p: Vec<u8>)
    ensures
        p@ == anonymous_bytes(),
{
    candid::Principal::anonymous().as_slice().to_vec()
}

/// `ic_ledger_types::MAINNET_CYCLES_MINTING_CANISTER_ID`, which the crate
/// defines as the principal of the bytes 0,0,0,0,0,0,0,4,1,1.
#[verifier::external_body]
pub(crate) fn cycles_minting_canister() -> (p: Vec<u8>)
    ensures
        p@ == cycles_minting_bytes(),
{
    ic_ledger_types::MAINNET_CYCLES_MINTING_CANISTER_ID.as_slice().to_vec()
}

/// `candid::Principal::to_text` on `Principal::from_slice(bytes)` (which
/// panics above 29 bytes): the principal's textual form, a function of its
/// bytes alone.
#[verifier::external_body]
pub(crate) fn principal_to_text(bytes: &[u8]) -> (text: String)
    requires
        is_principal(bytes@),
    ensures
        text@ == principal_text(bytes@),
{
    candid::Principal::from_slice(bytes).to_text()
}

/// `ic_ledger_types::Subaccount::from(Principal)`: a 32-byte array whose
/// first byte is the principal's length, followed by its bytes and zeros.
#[verifier::external_body]
pub(crate) fn subaccount_of(principal: &[u8]) -> (sub: Vec<u8>)
    requires
        is_principal(principal@),
    ensures
        sub@ == spec_subaccount(principal@),
{
    ic_ledger_types::Subaccount::from(candid::Principal::from_slice(principal)).0.to_vec()
}

/// `ic_ledger_types::AccountIdentifier::new(owner, subaccount)` (a SHA-224
/// hash with a CRC-32 prefix), taken as its 32 bytes: a function of the
/// owner's bytes and the subaccount alone.
#[verifier::external_body]
pub(crate) fn account_identifier_of(owner: &[u8], subaccount: &[u8]) -> (account: Vec<u8>)
    requires
        is_principal(owner@),
        subaccount@.len() == 32,
    ensures
        account@ == account_identifier(owner@, subaccount@),
        account@.len() == 32,
{
    let sub: [u8; 32] = subaccount.try_into().unwrap();
    let owner = candid::Principal::from_slice(owner);
    ic_ledger_types::AccountIdentifier::new(&owner, &ic_ledger_types::Subaccount(sub)).as_ref().to_vec()
}

/// Different principals have different subaccounts.
pub proof fn lemma_subaccounts_distinct(p: Seq<u8>, q: Seq<u8>)
    requires
        is_principal(p),
        is_principal(q),
        p != q,
    ensures
        spec_subaccount(p) != spec_subaccount(q),
        spec_subaccount(p).len() == 32,
{
    let sp = spec_subaccount(p);
    let sq = spec_subaccount(q);
    if sp == sq {
        assert(sp[0] == sq[0]);
        assert(p.len() == q.len());
        assert forall|i: int| 0 <= i < p.len() implies p[i] == q[i] by {
            assert(sp[i + 1] == p[i]);
            assert(sq[i + 1] == q[i]);
        }
        assert(p =~= q);
    }
}

} // verus!
