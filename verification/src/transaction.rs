//! The transactions that are sent: a transfer of one lamport with a compute budget and a
//! priority fee.

use crate::pubkey::{pubkey_of, Pubkey};
use crate::text::joined;
use solana_sdk::instruction::{AccountMeta as SdkAccountMeta, Instruction as SdkInstruction};
use solana_sdk::signature::{Keypair, Signer};
use solana_sdk::transaction::Transaction;
use vstd::prelude::*;

verus! {

/// An account that an instruction works on.
#[derive(Debug, Clone, Copy)]
pub struct AccountMeta {
    pub pubkey: Pubkey,
    pub is_signer: bool,
    pub is_writable: bool,
}

/// An instruction to a program.
#[derive(Debug)]
pub struct Instruction {
    pub program_id: Pubkey,
    pub accounts: Vec<AccountMeta>,
    pub data: Vec<u8>,
}

/// What an account of an instruction is: its key, whether it signs, and whether it is written.
pub open spec fn account_view(account: AccountMeta) -> (Seq<u8>, bool, bool) {
    (account.pubkey@, account.is_signer, account.is_writable)
}

impl View for Instruction {
    type V = (Seq<u8>, Seq<(Seq<u8>, bool, bool)>, Seq<u8>);

    /// The program, the accounts and the data.
    open spec fn view(&self) -> (Seq<u8>, Seq<(Seq<u8>, bool, bool)>, Seq<u8>) {
        (
            self.program_id@,
            self.accounts@.map_values(|account: AccountMeta| account_view(account)),
            self.data@,
        )
    }
}

/// `n` in `count` bytes, the lowest first.
pub open spec fn little_endian(n: nat, count: nat) -> Seq<u8>
    decreases count,
{
    if count == 0 {
        Seq::empty()
    } else {
        seq![(n % 256) as u8] + little_endian(n / 256, (count - 1) as nat)
    }
}

/// The key of the program that takes the compute budget.
pub open spec fn compute_budget_program() -> Seq<u8> {
    pubkey_of("ComputeBudget111111111111111111111111111111"@)->0
}

/// The key of the program that moves lamports.
pub open spec fn system_program() -> Seq<u8> {
    Seq::new(32, |i: int| 0u8)
}

/// The instruction that limits the compute units of a transaction.
pub open spec fn limit_instruction(units: u32) -> (Seq<u8>, Seq<(Seq<u8>, bool, bool)>, Seq<u8>) {
    (compute_budget_program(), Seq::empty(), seq![2u8] + little_endian(units as nat, 4))
}

/// The instruction that sets the price of a compute unit, in millionths of a lamport.
pub open spec fn price_instruction(price: u64) -> (Seq<u8>, Seq<(Seq<u8>, bool, bool)>, Seq<u8>) {
    (compute_budget_program(), Seq::empty(), seq![3u8] + little_endian(price as nat, 8))
}

/// The instruction that moves lamports: the sender signs, and both accounts are written.
pub open spec fn transfer_instruction(from: Seq<u8>, to: Seq<u8>, lamports: u64) -> (
    Seq<u8>,
    Seq<(Seq<u8>, bool, bool)>,
    Seq<u8>,
) {
    (
        system_program(),
        seq![(from, true, true), (to, false, true)],
        little_endian(2, 4) + little_endian(lamports as nat, 8),
    )
}

/// `solana_sdk::compute_budget::ComputeBudgetInstruction::set_compute_unit_limit`: the
/// instruction that limits the compute units, byte for byte.
#[verifier::external_body]
fn sdk_set_compute_unit_limit(units: u32) -> (r: Instruction)
    ensures
        r@ == limit_instruction(units),
{
    let i = solana_sdk::compute_budget::ComputeBudgetInstruction::set_compute_unit_limit(units);
    let accounts = i.accounts.iter().map(|a| AccountMeta {
        pubkey: Pubkey { bytes: a.pubkey.to_bytes() },
        is_signer: a.is_signer,
        is_writable: a.is_writable,
    }).collect();
    Instruction { program_id: Pubkey { bytes: i.program_id.to_bytes() }, accounts, data: i.data }
}

/// `solana_sdk::compute_budget::ComputeBudgetInstruction::set_compute_unit_price`: the
/// instruction that sets the price of a compute unit, byte for byte.
#[verifier::external_body]
fn sdk_set_compute_unit_price(price: u64) -> (r: Instruction)
    ensures
        r@ == price_instruction(price),
{
    let i = solana_sdk::compute_budget::ComputeBudgetInstruction::set_compute_unit_price(price);
    let accounts = i.accounts.iter().map(|a| AccountMeta {
        pubkey: Pubkey { bytes: a.pubkey.to_bytes() },
        is_signer: a.is_signer,
        is_writable: a.is_writable,
    }).collect();
    Instruction { program_id: Pubkey { bytes: i.program_id.to_bytes() }, accounts, data: i.data }
}

/// `solana_sdk::system_instruction::transfer`: the instruction that moves lamports, byte for
/// byte.
#[allow(deprecated)]
#[verifier::external_body]
fn sdk_transfer(from: &Pubkey, to: &Pubkey, lamports: u64) -> (r: Instruction)
    ensures
        r@ == transfer_instruction(from@, to@, lamports),
{
    let from = solana_sdk::pubkey::Pubkey::new_from_array(from.bytes);
    let to = solana_sdk::pubkey::Pubkey::new_from_array(to.bytes);
    let i = solana_sdk::system_instruction::transfer(&from, &to, lamports);
    let accounts = i.accounts.iter().map(|a| AccountMeta {
        pubkey: Pubkey { bytes: a.pubkey.to_bytes() },
        is_signer: a.is_signer,
        is_writable: a.is_writable,
    }).collect();
    Instruction { program_id: Pubkey { bytes: i.program_id.to_bytes() }, accounts, data: i.data }
}

/// The public key of the Ed25519 secret key `secret`.
pub uninterp spec fn public_key(secret: Seq<u8>) -> Seq<u8>;

/// `solana_sdk::signature::Keypair::new_from_array` and `pubkey`: the public key of a secret
/// key, which depends on the secret key alone.
#[verifier::external_body]
fn sdk_public_key(secret: &[u8; 32]) -> (r: Pubkey)
    ensures
        r@ == public_key(secret@),
{
    let pair = Keypair::new_from_array(*secret);
    Pubkey { bytes: pair.pubkey().to_bytes() }
}

/// A transaction that was signed.
#[derive(Debug)]
pub struct SignedTransaction {
    /// The signatures, that of the payer first.
    pub signatures: Vec<Vec<u8>>,
    /// The transaction as it is sent.
    pub wire: Vec<u8>,
}

impl View for SignedTransaction {
    type V = (Seq<Seq<u8>>, Seq<u8>);

    /// The signatures, and the transaction as it is sent.
    open spec fn view(&self) -> (Seq<Seq<u8>>, Seq<u8>) {
        (self.signatures@.map_values(|signature: Vec<u8>| signature@), self.wire@)
    }
}

/// The transaction of the given instructions, programs with accounts and data, that the owner
/// of `secret` pays for and signs after the block `blockhash`: its signatures, and its bytes as
/// `bincode` writes them.
pub uninterp spec fn signed_transaction(
    instructions: Seq<(Seq<u8>, Seq<(Seq<u8>, bool, bool)>, Seq<u8>)>,
    secret: Seq<u8>,
    blockhash: Seq<u8>,
) -> (Seq<Seq<u8>>, Seq<u8>);

/// What the given instructions are.
pub open spec fn instruction_views(instructions: Seq<Instruction>) -> Seq<
    (Seq<u8>, Seq<(Seq<u8>, bool, bool)>, Seq<u8>),
> {
    instructions.map_values(|instruction: Instruction| instruction@)
}

/// How many keys the given instructions name, counting a key as often as it is named.
pub open spec fn named_keys(
    instructions: Seq<(Seq<u8>, Seq<(Seq<u8>, bool, bool)>, Seq<u8>)>,
) -> nat
    decreases instructions.len(),
{
    if instructions.len() == 0 {
        0
    } else {
        named_keys(instructions.drop_last()) + 1 + instructions.last().1.len()
    }
}

/// Whether nobody but `payer` has to sign the given instructions.
pub open spec fn signed_by(
    instructions: Seq<(Seq<u8>, Seq<(Seq<u8>, bool, bool)>, Seq<u8>)>,
    payer: Seq<u8>,
) -> bool {
    forall|i: int, j: int|
        #![trigger instructions[i].1[j]]
        0 <= i < instructions.len() && 0 <= j < instructions[i].1.len()
            && instructions[i].1[j].1 ==> instructions[i].1[j].0 == payer
}

/// Whether the data of each of the given instructions is short enough for a transaction, where
/// lengths are counted in two bytes.
pub open spec fn short_data(
    instructions: Seq<(Seq<u8>, Seq<(Seq<u8>, bool, bool)>, Seq<u8>)>,
) -> bool {
    forall|i: int| 0 <= i < instructions.len() ==> (#[trigger] instructions[i]).2.len() <= 0xffff
}

/// `solana_sdk::transaction::Transaction::new_signed_with_payer` and `bincode::serialize`: puts
/// the instructions into a transaction that the owner of `secret` pays for and signs, and
/// writes it as it is sent. Keys are counted in a byte, lengths in two, and only the payer's key
/// is at hand; within that it always succeeds. There is one signature, of 64 bytes. An Ed25519
/// signature is fixed by the key and what is signed, so the result depends on the arguments
/// alone; what the signature and the bytes are is not stated.
#[verifier::external_body]
fn sdk_sign(instructions: &Vec<Instruction>, secret: &[u8; 32], blockhash: &[u8; 32]) -> (r: Option<
    SignedTransaction,
>)
    requires
        named_keys(instruction_views(instructions@)) < 255,
        signed_by(instruction_views(instructions@), public_key(secret@)),
        short_data(instruction_views(instructions@)),
    ensures
        r is Some,
        r->0@ == signed_transaction(instruction_views(instructions@), secret@, blockhash@),
        r->0.signatures@.len() == 1 && r->0.signatures@[0]@.len() == 64,
{
    let pair = Keypair::new_from_array(*secret);
    let list: Vec<_> = instructions.iter().map(|i| SdkInstruction {
        program_id: i.program_id.bytes.into(),
        accounts: i.accounts.iter().map(|a| SdkAccountMeta {
            pubkey: a.pubkey.bytes.into(),
            is_signer: a.is_signer,
            is_writable: a.is_writable,
        }).collect(),
        data: i.data.clone(),
    }).collect();
    let t = Transaction::new_signed_with_payer(
        &list, Some(&pair.pubkey()), &[&pair], (*blockhash).into(),
    );
    let wire = bincode::serialize(&t).ok()?;
    Some(SignedTransaction { wire, signatures: t.signatures.iter().map(|s| s.as_ref().to_vec()).collect() })
}

/// The public key of the wallet whose Ed25519 secret key is `secret`.
pub fn wallet(secret: &[u8; 32]) -> (r: Pubkey)
    ensures
        r@ == public_key(secret@),
{
    sdk_public_key(secret)
}

/// The instructions of a transfer of one lamport from `sender` to `recipient`.
pub open spec fn transfer_plan(
    sender: Seq<u8>,
    recipient: Seq<u8>,
    priority_fee: u64,
    compute_limit: u32,
) -> Seq<(Seq<u8>, Seq<(Seq<u8>, bool, bool)>, Seq<u8>)> {
    seq![
        limit_instruction(compute_limit),
        price_instruction(priority_fee),
        transfer_instruction(sender, recipient, 1),
    ]
}

/// The instructions of a transfer of one lamport: the compute budget, the priority fee, and the
/// transfer.
pub fn transfer_instructions(
    sender: &Pubkey,
    recipient: &Pubkey,
    priority_fee: u64,
    compute_limit: u32,
) -> (r: Vec<Instruction>)
    ensures
        instruction_views(r@) == transfer_plan(sender@, recipient@, priority_fee, compute_limit),
{
    let mut r: Vec<Instruction> = Vec::new();
    r.push(sdk_set_compute_unit_limit(compute_limit));
    r.push(sdk_set_compute_unit_price(priority_fee));
    r.push(sdk_transfer(sender, recipient, 1));
    assert(instruction_views(r@) =~= transfer_plan(
        sender@,
        recipient@,
        priority_fee,
        compute_limit,
    ));
    r
}

/// A transfer of one lamport from the wallet whose secret key is `secret` to `recipient`,
/// signed after the block `blockhash`.
pub fn build_signed_transfer_tx(
    secret: &[u8; 32],
    recipient: &Pubkey,
    priority_fee: u64,
    compute_limit: u32,
    blockhash: &[u8; 32],
) -> (r: SignedTransaction)
    ensures
        r@ == signed_transaction(
            transfer_plan(public_key(secret@), recipient@, priority_fee, compute_limit),
            secret@,
            blockhash@,
        ),
        r.signatures@.len() == 1 && r.signatures@[0]@.len() == 64,
{
    let sender: Pubkey = wallet(secret);
    let instructions: Vec<Instruction> = transfer_instructions(
        &sender,
        recipient,
        priority_fee,
        compute_limit,
    );
    proof {
        let plan = instruction_views(instructions@);
        assert(plan.drop_last().drop_last().drop_last() =~= Seq::empty());
        reveal_with_fuel(named_keys, 4);
        assert(plan.last() == plan[2]);
        assert(plan.drop_last().last() == plan[1]);
        assert(plan.drop_last().drop_last().last() == plan[0]);
        reveal_with_fuel(little_endian, 9);
    }
    sdk_sign(&instructions, secret, blockhash).unwrap()
}

/// Whom to send to: the wallet that `recipient` names, or the sender where nobody is named.
pub fn parse_recipient(recipient: Option<String>, sender: &Pubkey) -> (r: Result<Pubkey, String>)
    ensures
        match recipient {
            Some(text) => match pubkey_of(text@) {
                Some(key) => r matches Ok(k) && k@ == key,
                None => {
                    &&& r matches Err(message)
                    &&& message@ == "Invalid recipient pubkey: '"@ + text@ + "'. Expected base58."@
                },
            },
            None => r matches Ok(k) && k@ == sender@,
        },
{
    match recipient {
        Some(text) => match Pubkey::from_text(text.as_str()) {
            Some(key) => Ok(key),
            None => {
                let mut message: String = joined("Invalid recipient pubkey: '", text.as_str());
                message.append("'. Expected base58.");
                Err(message)
            },
        },
        None => Ok(*sender),
    }
}

proof fn lemma_four_bytes(n: nat)
    requires
        n < 0x1_0000_0000,
    ensures
        ({
            let b = little_endian(n, 4);
            &&& b.len() == 4
            &&& b[0] + 0x100 * b[1] + 0x1_0000 * b[2] + 0x100_0000 * b[3] == n
        }),
{
    reveal_with_fuel(little_endian, 5);
    let n1 = n / 256;
    let n2 = n1 / 256;
    let n3 = n2 / 256;
    let b = little_endian(n, 4);
    assert(b[0] == (n % 256) as u8);
    assert(b[1] == (n1 % 256) as u8);
    assert(b[2] == (n2 % 256) as u8);
    assert(b[3] == (n3 % 256) as u8);
}

proof fn lemma_little_endian_splits(n: nat, low: nat, high: nat)
    ensures
        little_endian(n, low + high) == little_endian(n, low) + little_endian(
            n / vstd::arithmetic::power::pow(256, low) as nat,
            high,
        ),
    decreases low,
{
    let p = vstd::arithmetic::power::pow(256, low);
    vstd::arithmetic::power::lemma_pow_positive(256, low);
    if low == 0 {
        vstd::arithmetic::power::lemma_pow0(256);
        assert(n / 1 == n);
        assert(little_endian(n, 0) + little_endian(n, high) =~= little_endian(n, high));
    } else {
        let fewer = (low - 1) as nat;
        let q = vstd::arithmetic::power::pow(256, fewer);
        vstd::arithmetic::power::lemma_pow_positive(256, fewer);
        lemma_little_endian_splits(n / 256, fewer, high);
        reveal(vstd::arithmetic::power::pow);
        assert(p == 256 * q);
        vstd::arithmetic::div_mod::lemma_div_denominator(n as int, 256, q);
        assert((n / 256) / (q as nat) == n / (p as nat));
        assert(little_endian(n, low + high) =~= little_endian(n, low) + little_endian(
            n / p as nat,
            high,
        ));
    }
}

proof fn lemma_eight_bytes(n: nat)
    requires
        n < 0x1_0000_0000_0000_0000,
    ensures
        ({
            let b = little_endian(n, 8);
            &&& b.len() == 8
            &&& b[0] + 0x100 * b[1] + 0x1_0000 * b[2] + 0x100_0000 * b[3] + 0x1_0000_0000 * b[4]
                + 0x100_0000_0000 * b[5] + 0x1_0000_0000_0000 * b[6] + 0x100_0000_0000_0000 * b[7]
                == n
        }),
{
    let low = n % 0x1_0000_0000;
    let high = n / 0x1_0000_0000;
    vstd::arithmetic::power::lemma_pow_positive(256, 4);
    assert(vstd::arithmetic::power::pow(256, 4) == 0x1_0000_0000) by {
        reveal(vstd::arithmetic::power::pow);
        reveal_with_fuel(vstd::arithmetic::power::pow, 5);
    }
    lemma_little_endian_splits(n, 4, 4);
    lemma_same_low_bytes(n, low);
    lemma_four_bytes(low);
    lemma_four_bytes(high);
}

proof fn lemma_same_low_bytes(n: nat, low: nat)
    requires
        low == n % 0x1_0000_0000,
    ensures
        little_endian(n, 4) == little_endian(low, 4),
{
    reveal_with_fuel(little_endian, 5);
    assert(n % 256 == low % 256);
    assert((n / 256) % 256 == (low / 256) % 256);
    assert((n / 256 / 256) % 256 == (low / 256 / 256) % 256);
    assert((n / 256 / 256 / 256) % 256 == (low / 256 / 256 / 256) % 256);
}

/// Whoever sends to whom, the sender to itself too, a transfer is three instructions. The first
/// limits the compute units to exactly the limit that was asked for; the second sets their price
/// to exactly the fee that was asked for; the third moves one lamport from the sender, who signs,
/// to the recipient. The numbers are written with their lowest byte first.
pub proof fn law_transfer_asks_for_what_was_asked(
    sender: Seq<u8>,
    recipient: Seq<u8>,
    priority_fee: u64,
    compute_limit: u32,
)
    ensures
        ({
            let plan = transfer_plan(sender, recipient, priority_fee, compute_limit);
            let budget = pubkey_of("ComputeBudget111111111111111111111111111111"@)->0;
            let (limit, price, transfer) = (plan[0], plan[1], plan[2]);
            &&& plan.len() == 3
            &&& limit.0 == budget
            &&& limit.1.len() == 0
            &&& limit.2.len() == 5
            &&& limit.2[0] == 2
            &&& limit.2[1] + 0x100 * limit.2[2] + 0x1_0000 * limit.2[3] + 0x100_0000 * limit.2[4]
                == compute_limit
            &&& price.0 == budget
            &&& price.1.len() == 0
            &&& price.2.len() == 9
            &&& price.2[0] == 3
            &&& price.2[1] + 0x100 * price.2[2] + 0x1_0000 * price.2[3] + 0x100_0000 * price.2[4]
                + 0x1_0000_0000 * price.2[5] + 0x100_0000_0000 * price.2[6] + 0x1_0000_0000_0000
                * price.2[7] + 0x100_0000_0000_0000 * price.2[8] == priority_fee
            &&& transfer.0.len() == 32
            &&& forall|i: int| 0 <= i < 32 ==> #[trigger] transfer.0[i] == 0
            &&& transfer.1.len() == 2
            &&& transfer.1[0] == (sender, true, true)
            &&& transfer.1[1] == (recipient, false, true)
            &&& transfer.2 == seq![2u8, 0u8, 0u8, 0u8, 1u8, 0u8, 0u8, 0u8, 0u8, 0u8, 0u8, 0u8]
        }),
{
    lemma_four_bytes(compute_limit as nat);
    lemma_eight_bytes(priority_fee as nat);
    reveal_with_fuel(little_endian, 9);
    let plan = transfer_plan(sender, recipient, priority_fee, compute_limit);
    let limit = little_endian(compute_limit as nat, 4);
    let price = little_endian(priority_fee as nat, 8);
    assert(plan[0].2 == seq![2u8] + limit);
    assert(plan[1].2 == seq![3u8] + price);
    assert(little_endian(2, 4) =~= seq![2u8, 0u8, 0u8, 0u8]);
    assert(little_endian(1, 8) =~= seq![1u8, 0u8, 0u8, 0u8, 0u8, 0u8, 0u8, 0u8]);
    assert(plan[2].2 =~= seq![2u8, 0u8, 0u8, 0u8, 1u8, 0u8, 0u8, 0u8, 0u8, 0u8, 0u8, 0u8]);
}

/// An instruction is seen as its program, its accounts with their two marks, and its data, all of
/// them unchanged.
pub proof fn law_instruction_is_its_parts(i: Instruction)
    ensures
        i@.0 == i.program_id.bytes@,
        i@.1.len() == i.accounts@.len(),
        forall|k: int|
            0 <= k < i.accounts@.len() ==> #[trigger] i@.1[k] == (
                i.accounts@[k].pubkey.bytes@,
                i.accounts@[k].is_signer,
                i.accounts@[k].is_writable,
            ),
        i@.2 == i.data@,
{
}

/// Instructions are seen one by one, and a signed transaction as its signatures and its bytes.
pub proof fn law_lists_are_seen_one_by_one(instructions: Seq<Instruction>, t: SignedTransaction)
    ensures
        instruction_views(instructions).len() == instructions.len(),
        forall|k: int|
            0 <= k < instructions.len() ==> #[trigger] instruction_views(instructions)[k]
                == instructions[k]@,
        t@.0.len() == t.signatures@.len(),
        forall|k: int|
            0 <= k < t.signatures@.len() ==> #[trigger] t@.0[k] == t.signatures@[k]@,
        t@.1 == t.wire@,
{
}

} // verus!
