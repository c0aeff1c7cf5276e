use token_sweep::directory::Directory;
use token_sweep::errors::{ParseFault, SweepError};
use token_sweep::record::RawRecord;

// 32 ones decode to the 32 zero bytes.
const ZERO_ID: &str = "11111111111111111111111111111111";
// The token program's address and the wrapped-coin mint: both decode to 32
// bytes.
const TOKEN_ID: &str = "TokenkegQfeZyiNwAJbNbGKPFXCWuBvf9Ss623VQ5DA";
const WSOL_ID: &str = "So11111111111111111111111111111111111111112";

fn raw(address: &str, mint: &str, amount: &str, display: &str) -> RawRecord {
    RawRecord {
        address: address.as_bytes().to_vec(),
        mint: mint.as_bytes().to_vec(),
        amount: amount.as_bytes().to_vec(),
        display_balance: display.as_bytes().to_vec(),
    }
}

#[test]
fn load_decodes_valid_records() {
    let dir = Directory::load(&vec![
        raw(ZERO_ID, WSOL_ID, "1500", "1.5"),
        raw(TOKEN_ID, WSOL_ID, "7", "0.000007"),
    ])
    .unwrap();
    assert_eq!(dir.records.len(), 2);
    let first = &dir.records[0];
    assert_eq!(first.address, ZERO_ID.as_bytes().to_vec());
    // The identifier text really was base58-decoded, not copied through.
    assert_eq!(first.address_raw, vec![0u8; 32]);
    assert_eq!(first.mint_raw.len(), 32);
    assert_ne!(first.mint_raw, first.mint);
    assert_eq!(first.raw_balance, 1500);
    assert_eq!(first.display_balance, b"1.5".to_vec());
    assert!(!first.selected);
    assert_eq!(dir.records[1].raw_balance, 7);
}

#[test]
fn load_rejects_malformed_address() {
    // Not base58 at all.
    let r = Directory::load(&vec![raw("not base58!", WSOL_ID, "1", "0")]);
    assert_eq!(
        r.unwrap_err(),
        SweepError::SourceParse(ParseFault::MalformedAddress)
    );
    // Valid base58, but not 32 bytes.
    let r = Directory::load(&vec![raw("abc", WSOL_ID, "1", "0")]);
    assert_eq!(
        r.unwrap_err(),
        SweepError::SourceParse(ParseFault::MalformedAddress)
    );
}

#[test]
fn load_rejects_malformed_mint() {
    let r = Directory::load(&vec![raw(ZERO_ID, "0OIl", "1", "0")]);
    assert_eq!(
        r.unwrap_err(),
        SweepError::SourceParse(ParseFault::MalformedMint)
    );
}

#[test]
fn load_rejects_non_numeric_amount() {
    let r = Directory::load(&vec![raw(ZERO_ID, WSOL_ID, "12x", "0")]);
    assert_eq!(
        r.unwrap_err(),
        SweepError::SourceParse(ParseFault::NonNumericAmount)
    );
    let r = Directory::load(&vec![raw(ZERO_ID, WSOL_ID, "", "0")]);
    assert_eq!(
        r.unwrap_err(),
        SweepError::SourceParse(ParseFault::NonNumericAmount)
    );
}

#[test]
fn load_keeps_the_first_of_duplicate_addresses() {
    let dir = Directory::load(&vec![
        raw(ZERO_ID, WSOL_ID, "1", "first"),
        raw(TOKEN_ID, WSOL_ID, "2", "other"),
        raw(ZERO_ID, WSOL_ID, "3", "second"),
    ])
    .unwrap();
    assert_eq!(dir.records.len(), 2);
    assert_eq!(dir.records[0].address, ZERO_ID.as_bytes().to_vec());
    assert_eq!(dir.records[0].display_balance, b"first".to_vec());
    assert_eq!(dir.records[1].address, TOKEN_ID.as_bytes().to_vec());
}

#[test]
fn instructions_come_two_per_record() {
    let dir = Directory::load(&vec![
        raw(ZERO_ID, WSOL_ID, "5", "0"),
        raw(TOKEN_ID, WSOL_ID, "6", "0"),
    ])
    .unwrap();
    let mut session = token_sweep::controller::Session::new(dir);
    session.select_all();
    let pipeline = session.request_processing().unwrap();
    assert_eq!(pipeline.units.len(), 1);
    let authority = vec![9u8; 32];
    let instructions =
        token_sweep::ledger::unit_instructions(&pipeline.units[0], &authority);
    assert_eq!(instructions.len(), 4);
}
