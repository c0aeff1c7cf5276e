//! The account record: one token-holding account entry, as loaded from the
//! upstream source and tracked by the directory.
use vstd::prelude::*;

use crate::errors::{ParseFault, SweepError};
use crate::text::{contains_ci, parse_u64, parse_u64_spec};

verus! {

/// What bs58 decoding yields for a text: some byte string, or nothing on
/// malformed text; a function of the text alone.
pub uninterp spec fn base58_decode_of(s: Seq<u8>) -> Option<Seq<u8>>;

/// Relies on bs58::decode(..).into_vec(): decodes base58 text to bytes and
/// fails exactly on malformed text; the result depends on the text alone.
#[verifier::external_body]
pub(crate) fn decode_base58(text: &Vec<u8>) -> (r: Option<Vec<u8>>)
    ensures
        (r is Some) == (base58_decode_of(text@) is Some),
        r is Some ==> r.unwrap()@ == base58_decode_of(text@).unwrap(),
{
    bs58::decode(text.as_slice()).into_vec().ok()
}

/// A well-formed identifier text: base58 that decodes to exactly 32 bytes.
pub open spec fn valid_id_text(s: Seq<u8>) -> bool {
    &&& base58_decode_of(s) is Some
    &&& base58_decode_of(s).unwrap().len() == 32
}

/// One raw entry as the upstream source hands it over: identifiers in their
/// base58 textual form and the amount as decimal text.
pub struct RawRecord {
    /// Account address, base58 text.
    pub address: Vec<u8>,
    /// Mint identifier, base58 text.
    pub mint: Vec<u8>,
    /// Smallest-unit token amount, decimal text.
    pub amount: Vec<u8>,
    /// Human-readable balance, stored verbatim.
    pub display_balance: Vec<u8>,
}

/// Mathematical model of an account record.
pub struct RecordModel {
    pub address: Seq<u8>,
    pub address_raw: Seq<u8>,
    pub mint: Seq<u8>,
    pub mint_raw: Seq<u8>,
    pub raw_balance: u64,
    pub display_balance: Seq<u8>,
    pub selected: bool,
}

/// One token-holding account tracked by the directory.
#[derive(Debug)]
pub struct AccountRecord {
    /// Base58 text of the account's address; the unique key.
    pub address: Vec<u8>,
    /// The 32 raw bytes the address text decodes to.
    pub address_raw: Vec<u8>,
    /// Base58 text of the mint identifier; the filter predicate's target.
    pub mint: Vec<u8>,
    /// The 32 raw bytes the mint text decodes to.
    pub mint_raw: Vec<u8>,
    /// Smallest-unit token amount.
    pub raw_balance: u64,
    /// Human-readable balance, stored verbatim from the source.
    pub display_balance: Vec<u8>,
    /// Whether the account is currently selected.
    pub selected: bool,
}

impl View for AccountRecord {
    type V = RecordModel;

    open spec fn view(&self) -> RecordModel {
        RecordModel {
            address: self.address@,
            address_raw: self.address_raw@,
            mint: self.mint@,
            mint_raw: self.mint_raw@,
            raw_balance: self.raw_balance,
            display_balance: self.display_balance@,
            selected: self.selected,
        }
    }
}

/// The record `m` with its selection flag set to `v` and all else unchanged.
pub open spec fn with_selected(m: RecordModel, v: bool) -> RecordModel {
    RecordModel { selected: v, ..m }
}

/// Whether a record matches the filter predicate `p`: case-insensitive
/// substring match on the mint's textual form.
pub open spec fn matches_predicate(m: RecordModel, p: Seq<u8>) -> bool {
    contains_ci(m.mint, p)
}

/// A byte-for-byte copy of a byte vector.
pub fn clone_bytes(v: &Vec<u8>) -> (r: Vec<u8>)
    ensures
        r@ == v@,
{
    let mut r: Vec<u8> = Vec::new();
    let mut i: usize = 0;
    while i < v.len()
        invariant
            i <= v@.len(),
            r@ == v@.subrange(0, i as int),
        decreases v@.len() - i,
    {
        r.push(v[i]);
        proof {
            assert(v@.subrange(0, i + 1) =~= v@.subrange(0, i as int).push(v@[i as int]));
        }
        i += 1;
    }
    proof {
        assert(v@.subrange(0, v@.len() as int) =~= v@);
    }
    r
}

/// A raw record is valid when both identifiers are well-formed and the
/// amount is a decimal that fits in 64 bits.
pub open spec fn raw_valid(r: RawRecord) -> bool {
    &&& valid_id_text(r.address@)
    &&& valid_id_text(r.mint@)
    &&& parse_u64_spec(r.amount@) is Some
}

/// The account record a valid raw record decodes to: initially unselected.
pub open spec fn decoded_model(r: RawRecord) -> RecordModel {
    RecordModel {
        address: r.address@,
        address_raw: base58_decode_of(r.address@).unwrap(),
        mint: r.mint@,
        mint_raw: base58_decode_of(r.mint@).unwrap(),
        raw_balance: parse_u64_spec(r.amount@).unwrap(),
        display_balance: r.display_balance@,
        selected: false,
    }
}

/// Which field an invalid raw record fails on, address first, then mint,
/// then amount.
pub open spec fn parse_fault_of(r: RawRecord) -> ParseFault {
    if !valid_id_text(r.address@) {
        ParseFault::MalformedAddress
    } else if !valid_id_text(r.mint@) {
        ParseFault::MalformedMint
    } else {
        ParseFault::NonNumericAmount
    }
}

/// Decodes one raw source entry into an account record, or reports exactly
/// which field is malformed.
pub fn decode_record(raw: &RawRecord) -> (r: Result<AccountRecord, SweepError>)
    ensures
        (r is Ok) == raw_valid(*raw),
        r is Ok ==> r.unwrap()@ == decoded_model(*raw),
        r is Err ==> r == Err::<AccountRecord, SweepError>(
            SweepError::SourceParse(parse_fault_of(*raw)),
        ),
{
    let address_raw = match decode_base58(&raw.address) {
        Some(b) => b,
        None => {
            return Err(SweepError::SourceParse(ParseFault::MalformedAddress));
        },
    };
    if address_raw.len() != 32 {
        return Err(SweepError::SourceParse(ParseFault::MalformedAddress));
    }
    let mint_raw = match decode_base58(&raw.mint) {
        Some(b) => b,
        None => {
            return Err(SweepError::SourceParse(ParseFault::MalformedMint));
        },
    };
    if mint_raw.len() != 32 {
        return Err(SweepError::SourceParse(ParseFault::MalformedMint));
    }
    let raw_balance = match parse_u64(&raw.amount) {
        Some(v) => v,
        None => {
            return Err(SweepError::SourceParse(ParseFault::NonNumericAmount));
        },
    };
    Ok(
        AccountRecord {
            address: clone_bytes(&raw.address),
            address_raw,
            mint: clone_bytes(&raw.mint),
            mint_raw,
            raw_balance,
            display_balance: clone_bytes(&raw.display_balance),
            selected: false,
        },
    )
}

impl AccountRecord {
    /// A copy of the record, equal to it in every field.
    pub fn duplicate(&self) -> (r: AccountRecord)
        ensures
            r@ == self@,
    {
        AccountRecord {
            address: clone_bytes(&self.address),
            address_raw: clone_bytes(&self.address_raw),
            mint: clone_bytes(&self.mint),
            mint_raw: clone_bytes(&self.mint_raw),
            raw_balance: self.raw_balance,
            display_balance: clone_bytes(&self.display_balance),
            selected: self.selected,
        }
    }
}

} // verus!
