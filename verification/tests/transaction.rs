use slipstream::pubkey::Pubkey;
use slipstream::transaction::{build_signed_transfer_tx, parse_recipient, transfer_instructions, wallet};
use solana_sdk::signature::Signer;

const WSOL: &str = "So11111111111111111111111111111111111111112";

#[test]
fn wallet_is_the_public_key() {
    let pair = solana_sdk::signature::Keypair::new_from_array([3; 32]);
    assert_eq!(wallet(&[3; 32]).bytes, pair.pubkey().to_bytes());
    assert_eq!(wallet(&[3; 32]).to_text(), pair.pubkey().to_string());
}

#[test]
fn transfer_has_three_instructions() {
    let from = Pubkey { bytes: [1; 32] };
    let to = Pubkey { bytes: [2; 32] };
    let list = transfer_instructions(&from, &to, 0x0102030405060708, 0x0a0b0c0d);
    assert_eq!(list.len(), 3);
    let budget = Pubkey::from_text("ComputeBudget111111111111111111111111111111").unwrap();
    assert_eq!(list[0].program_id, budget);
    assert!(list[0].accounts.is_empty());
    assert_eq!(list[0].data, vec![2, 0x0d, 0x0c, 0x0b, 0x0a]);
    assert_eq!(list[1].program_id, budget);
    assert!(list[1].accounts.is_empty());
    assert_eq!(list[1].data, vec![3, 8, 7, 6, 5, 4, 3, 2, 1]);
    assert_eq!(list[2].program_id.bytes, [0; 32]);
    assert_eq!(list[2].data, vec![2, 0, 0, 0, 1, 0, 0, 0, 0, 0, 0, 0]);
    let accounts: Vec<_> =
        list[2].accounts.iter().map(|a| (a.pubkey, a.is_signer, a.is_writable)).collect();
    assert_eq!(accounts, vec![(from, true, true), (to, false, true)]);
}

#[test]
fn signed_transfer_is_a_valid_transaction() {
    let to = Pubkey::from_text(WSOL).unwrap();
    let t = build_signed_transfer_tx(&[5; 32], &to, 77, 1234, &[6; 32]);
    let read: solana_sdk::transaction::Transaction = bincode::deserialize(&t.wire).unwrap();
    assert!(read.verify().is_ok());
    assert_eq!(read.message.recent_blockhash.to_bytes(), [6; 32]);
    assert_eq!(read.message.account_keys[0].to_bytes(), wallet(&[5; 32]).bytes);
    assert_eq!(read.message.header.num_required_signatures, 1);
    assert_eq!(read.message.instructions.len(), 3);
    assert_eq!(read.message.instructions[0].data, vec![2, 210, 4, 0, 0]);
    assert_eq!(read.message.instructions[1].data, vec![3, 77, 0, 0, 0, 0, 0, 0, 0]);
    assert_eq!(t.signatures.len(), 1);
    assert_eq!(t.signatures[0], read.signatures[0].as_ref().to_vec());
    assert_eq!(t.signatures[0].len(), 64);
}

#[test]
fn transfer_to_oneself_is_signed_too() {
    let me = wallet(&[5; 32]);
    let t = build_signed_transfer_tx(&[5; 32], &me, 0, 1, &[0; 32]);
    let read: solana_sdk::transaction::Transaction = bincode::deserialize(&t.wire).unwrap();
    assert!(read.verify().is_ok());
    assert_eq!(read.message.account_keys.len(), 3);
}

#[test]
fn signing_is_repeatable() {
    let to = Pubkey { bytes: [2; 32] };
    let a = build_signed_transfer_tx(&[5; 32], &to, 1, 2, &[3; 32]);
    let b = build_signed_transfer_tx(&[5; 32], &to, 1, 2, &[3; 32]);
    let c = build_signed_transfer_tx(&[5; 32], &to, 1, 2, &[4; 32]);
    assert_eq!(a.wire, b.wire);
    assert_ne!(a.wire, c.wire);
}

#[test]
fn recipient_is_the_sender_unless_named() {
    let me = Pubkey { bytes: [1; 32] };
    assert_eq!(parse_recipient(None, &me), Ok(me));
    let other = parse_recipient(Some(WSOL.to_string()), &me).unwrap();
    assert_eq!(other.to_text(), WSOL);
    assert_eq!(
        parse_recipient(Some("0x1".to_string()), &me).unwrap_err(),
        "Invalid recipient pubkey: '0x1'. Expected base58."
    );
}
