use std::str::FromStr;

use sol_central_treasury::address::{find_derivation, treasury_label_bytes, wallet_label_bytes, Address};
use sol_central_treasury::engine::{
    admin_withdraw, deposit, initialize_central_wallet, AdminWithdraw, DepositSol,
    InitializeCentralWallet,
};
use sol_central_treasury::errors::TreasuryError;
use sol_central_treasury::ledger::{wallet_reserve, Ledger, StoredRecord, TreasuryAccount};

const PROGRAM_ID: &str = "AUN1nL8ad53Eqc2ccp1gnK8VBN7SL9TazYLoS6vVsvp9";

fn program_address() -> Address {
    let pk = anchor_lang::prelude::Pubkey::from_str(PROGRAM_ID).unwrap();
    Address::new(pk.to_bytes())
}

fn named(n: u8) -> Address {
    Address::new([n; 32])
}

fn sol(amount: u64) -> u64 {
    amount * 1_000_000_000
}

/// Derive the canonical treasury and central wallet addresses for an owner.
fn derive_for(owner: &Address, program: &Address) -> (Address, u8, Address) {
    let (treasury, treasury_salt) =
        find_derivation(&treasury_label_bytes(), owner, program).expect("no treasury salt");
    let (central_wallet, _) =
        find_derivation(&wallet_label_bytes(), owner, program).expect("no wallet salt");
    (treasury, treasury_salt, central_wallet)
}

/// A ledger with an initialized treasury for `owner`: the owner holds
/// `owner_funds`, the central wallet was funded with one unit for the
/// reserve before initialization.
fn setup_initialized(owner: &Address, owner_funds: u64) -> (Ledger, Address, u8, Address) {
    let program = program_address();
    let (treasury, treasury_salt, central_wallet) = derive_for(owner, &program);
    let mut ledger = Ledger::new(program);
    ledger.fund(owner, owner_funds);
    ledger.fund(&central_wallet, sol(1));
    let accounts = InitializeCentralWallet { owner: *owner, central_wallet };
    initialize_central_wallet(&mut ledger, &accounts, treasury_salt)
        .expect("Failed to initialize treasury");
    (ledger, treasury, treasury_salt, central_wallet)
}

#[test]
fn test_central_wallet_initialization() {
    let owner = named(1);
    let (ledger, treasury, _, central_wallet) = setup_initialized(&owner, sol(1000));
    let record = ledger.record_of(&treasury).expect("record missing");
    assert_eq!(record.owner.bytes, owner.bytes);
    assert_eq!(record.central_wallet.bytes, central_wallet.bytes);
    assert!(record.initialized);
}

#[test]
fn test_valid_sol_deposit() {
    let owner = named(1);
    let depositor = named(2);
    let (mut ledger, _, _, central_wallet) = setup_initialized(&owner, sol(1000));
    ledger.fund(&depositor, sol(100));

    let accounts = DepositSol { depositor, central_wallet };
    deposit(&mut ledger, &accounts, sol(50)).expect("Could not deposit SOL");

    assert_eq!(ledger.balance_of(&central_wallet), sol(1) + sol(50));
    assert_eq!(ledger.balance_of(&depositor), sol(50));
}

#[test]
fn test_valid_admin_withdrawal() {
    let owner = named(1);
    let depositor = named(2);
    let recipient = named(3);
    let (mut ledger, treasury, _, central_wallet) = setup_initialized(&owner, sol(2));
    ledger.fund(&depositor, sol(100));

    let dep = DepositSol { depositor, central_wallet };
    deposit(&mut ledger, &dep, sol(50)).expect("Could not deposit SOL");

    let wd = AdminWithdraw { treasury, owner, central_wallet, recipient };
    admin_withdraw(&mut ledger, &wd, sol(25)).expect("Could not perform admin withdrawal");

    assert_eq!(ledger.balance_of(&recipient), sol(25));
    assert_eq!(ledger.balance_of(&central_wallet), sol(1) + sol(50) - sol(25));
}

#[test]
fn test_invalid_admin_withdrawal() {
    let owner = named(1);
    let depositor = named(2);
    let recipient = named(3);
    let not_owner = named(4);
    let (mut ledger, treasury, _, central_wallet) = setup_initialized(&owner, sol(2));
    ledger.fund(&depositor, sol(100));
    ledger.fund(&not_owner, sol(100));

    let dep = DepositSol { depositor, central_wallet };
    deposit(&mut ledger, &dep, sol(50)).expect("Could not deposit SOL");

    let before = ledger.balance_of(&central_wallet);
    let wd = AdminWithdraw { treasury, owner: not_owner, central_wallet, recipient };
    let result = admin_withdraw(&mut ledger, &wd, sol(25));
    assert!(result.is_err(), "Withdrawal should fail");
    assert_eq!(result, Err(TreasuryError::UnauthorizedWithdrawal));
    assert_eq!(ledger.balance_of(&central_wallet), before);
    assert_eq!(ledger.balance_of(&recipient), 0);
}

#[test]
fn test_derivation_is_deterministic() {
    let owner = named(7);
    let program = program_address();
    let first = find_derivation(&treasury_label_bytes(), &owner, &program).unwrap();
    let second = find_derivation(&treasury_label_bytes(), &owner, &program).unwrap();
    assert_eq!(first.0.bytes, second.0.bytes);
    assert_eq!(first.1, second.1);

    let w1 = find_derivation(&wallet_label_bytes(), &owner, &program).unwrap();
    let w2 = find_derivation(&wallet_label_bytes(), &owner, &program).unwrap();
    assert_eq!(w1.0.bytes, w2.0.bytes);
    assert_eq!(w1.1, w2.1);
}

#[test]
fn test_derivation_matches_ledger_primitive() {
    // The library's salt search must land on the very address and salt
    // that the ledger's own search yields.
    let owner = named(7);
    let program = program_address();
    let program_pk = anchor_lang::prelude::Pubkey::from_str(PROGRAM_ID).unwrap();

    let (expected_t, expected_tb) = anchor_lang::prelude::Pubkey::find_program_address(
        &[b"treasury", &owner.bytes],
        &program_pk,
    );
    let (t, tb) = find_derivation(&treasury_label_bytes(), &owner, &program).unwrap();
    assert_eq!(t.bytes, expected_t.to_bytes());
    assert_eq!(tb, expected_tb);

    let (expected_w, expected_wb) = anchor_lang::prelude::Pubkey::find_program_address(
        &[b"central_wallet", &owner.bytes],
        &program_pk,
    );
    let (w, wb) = find_derivation(&wallet_label_bytes(), &owner, &program).unwrap();
    assert_eq!(w.bytes, expected_w.to_bytes());
    assert_eq!(wb, expected_wb);

    // A derived address is a hash, not any of its inputs.
    assert_ne!(t.bytes, owner.bytes);
    assert_ne!(t.bytes, w.bytes);
}

#[test]
fn test_initialize_twice_fails() {
    let owner = named(1);
    let (mut ledger, _, treasury_salt, central_wallet) = setup_initialized(&owner, sol(1000));

    // A deposit in between does not reopen initialization.
    let depositor = named(2);
    ledger.fund(&depositor, sol(10));
    let dep = DepositSol { depositor, central_wallet };
    deposit(&mut ledger, &dep, sol(5)).unwrap();

    let accounts = InitializeCentralWallet { owner, central_wallet };
    let second = initialize_central_wallet(&mut ledger, &accounts, treasury_salt);
    assert_eq!(second, Err(TreasuryError::AlreadyInitialized));
}

#[test]
fn test_initialize_wrong_salt_rejected() {
    let owner = named(1);
    let program = program_address();
    let (_, treasury_salt, central_wallet) = derive_for(&owner, &program);
    let mut ledger = Ledger::new(program);
    ledger.fund(&central_wallet, sol(1));
    let accounts = InitializeCentralWallet { owner, central_wallet };
    let result = initialize_central_wallet(&mut ledger, &accounts, treasury_salt.wrapping_add(1));
    assert_eq!(result, Err(TreasuryError::InvalidWalletDerivation));
}

#[test]
fn test_initialize_wrong_wallet_rejected() {
    let owner = named(1);
    let program = program_address();
    let (_, treasury_salt, _) = derive_for(&owner, &program);
    let mut ledger = Ledger::new(program);
    let bogus_wallet = named(9);
    ledger.fund(&bogus_wallet, sol(1));
    let accounts = InitializeCentralWallet { owner, central_wallet: bogus_wallet };
    let result = initialize_central_wallet(&mut ledger, &accounts, treasury_salt);
    assert_eq!(result, Err(TreasuryError::InvalidWalletDerivation));
}

#[test]
fn test_initialize_underfunded_wallet_rejected() {
    let owner = named(1);
    let program = program_address();
    let (_, treasury_salt, central_wallet) = derive_for(&owner, &program);
    let mut ledger = Ledger::new(program);
    ledger.fund(&central_wallet, wallet_reserve() - 1);
    let accounts = InitializeCentralWallet { owner, central_wallet };
    let result = initialize_central_wallet(&mut ledger, &accounts, treasury_salt);
    assert_eq!(result, Err(TreasuryError::InsufficientReserve));
}

#[test]
fn test_deposit_conserves_value() {
    let owner = named(1);
    let depositor = named(2);
    let bystander = named(5);
    let (mut ledger, _, _, central_wallet) = setup_initialized(&owner, sol(1000));
    ledger.fund(&depositor, sol(100));
    ledger.fund(&bystander, sol(3));

    let depositor_before = ledger.balance_of(&depositor);
    let wallet_before = ledger.balance_of(&central_wallet);
    let bystander_before = ledger.balance_of(&bystander);
    let owner_before = ledger.balance_of(&owner);

    let accounts = DepositSol { depositor, central_wallet };
    deposit(&mut ledger, &accounts, sol(50)).unwrap();

    assert_eq!(ledger.balance_of(&central_wallet), wallet_before + sol(50));
    assert_eq!(ledger.balance_of(&depositor), depositor_before - sol(50));
    assert_eq!(ledger.balance_of(&bystander), bystander_before);
    assert_eq!(ledger.balance_of(&owner), owner_before);
}

#[test]
fn test_deposit_needs_no_permission() {
    // A depositor with no tie to the treasury may pay in, even before
    // the treasury is initialized.
    let owner = named(1);
    let stranger = named(8);
    let program = program_address();
    let (_, _, central_wallet) = derive_for(&owner, &program);
    let mut ledger = Ledger::new(program);
    ledger.fund(&stranger, 500);
    let accounts = DepositSol { depositor: stranger, central_wallet };
    deposit(&mut ledger, &accounts, 200).unwrap();
    assert_eq!(ledger.balance_of(&central_wallet), 200);
    assert_eq!(ledger.balance_of(&stranger), 300);
}

#[test]
fn test_deposit_insufficient_balance_fails() {
    let owner = named(1);
    let depositor = named(2);
    let (mut ledger, _, _, central_wallet) = setup_initialized(&owner, sol(1000));
    ledger.fund(&depositor, 10);
    let accounts = DepositSol { depositor, central_wallet };
    let result = deposit(&mut ledger, &accounts, 11);
    assert_eq!(result, Err(TreasuryError::TransferFailed));
    assert_eq!(ledger.balance_of(&depositor), 10);
    assert_eq!(ledger.balance_of(&central_wallet), sol(1));
}

#[test]
fn test_overdraw_rejected() {
    let owner = named(1);
    let recipient = named(3);
    let (mut ledger, treasury, _, central_wallet) = setup_initialized(&owner, sol(2));
    let depositor = named(2);
    ledger.fund(&depositor, sol(100));
    let dep = DepositSol { depositor, central_wallet };
    deposit(&mut ledger, &dep, sol(50)).unwrap();

    // Everything above the reserve is spendable; one more lamport is not.
    let spendable = ledger.balance_of(&central_wallet) - wallet_reserve();
    let wd = AdminWithdraw { treasury, owner, central_wallet, recipient };
    let result = admin_withdraw(&mut ledger, &wd, spendable + 1);
    assert_eq!(result, Err(TreasuryError::InsufficientFunds));
    assert_eq!(ledger.balance_of(&central_wallet), sol(51));
    assert_eq!(ledger.balance_of(&recipient), 0);

    admin_withdraw(&mut ledger, &wd, spendable).expect("spendable amount must pass");
    assert_eq!(ledger.balance_of(&central_wallet), wallet_reserve());
    assert_eq!(ledger.balance_of(&recipient), spendable);
}

#[test]
fn test_withdraw_unknown_treasury_fails() {
    let owner = named(1);
    let recipient = named(3);
    let program = program_address();
    let (treasury, _, central_wallet) = derive_for(&owner, &program);
    let mut ledger = Ledger::new(program);
    ledger.fund(&central_wallet, sol(10));
    let wd = AdminWithdraw { treasury, owner, central_wallet, recipient };
    let result = admin_withdraw(&mut ledger, &wd, 1);
    assert_eq!(result, Err(TreasuryError::UnauthorizedWithdrawal));
}

#[test]
fn test_withdraw_uninitialized_record_fails() {
    // A blank record occupying the treasury address does not authorize
    // withdrawals.
    let owner = named(1);
    let recipient = named(3);
    let program = program_address();
    let (treasury, _, central_wallet) = derive_for(&owner, &program);
    let record = TreasuryAccount {
        owner,
        central_wallet,
        derivation_salt: 0,
        initialized: false,
    };
    let mut ledger = Ledger {
        program_id: program,
        accounts: Vec::new(),
        records: vec![StoredRecord { address: treasury, record }],
    };
    ledger.fund(&central_wallet, sol(10));
    let wd = AdminWithdraw { treasury, owner, central_wallet, recipient };
    let result = admin_withdraw(&mut ledger, &wd, 1);
    assert_eq!(result, Err(TreasuryError::TreasuryNotInitialized));
}

#[test]
fn test_withdraw_wrong_wallet_fails() {
    let owner = named(1);
    let recipient = named(3);
    let (mut ledger, treasury, _, _) = setup_initialized(&owner, sol(2));
    let bogus_wallet = named(9);
    ledger.fund(&bogus_wallet, sol(10));
    let wd = AdminWithdraw { treasury, owner, central_wallet: bogus_wallet, recipient };
    let result = admin_withdraw(&mut ledger, &wd, 1);
    assert_eq!(result, Err(TreasuryError::InvalidWalletDerivation));
    assert_eq!(ledger.balance_of(&bogus_wallet), sol(10));
}

#[test]
fn test_wallet_reserve_is_positive() {
    assert!(wallet_reserve() > 0);
}

#[test]
fn test_full_treasury_scenario() {
    // Owner initializes with the wallet funded to the reserve; a
    // depositor pays in 50; the owner withdraws 25 to a recipient; a
    // non-owner's attempt to withdraw 25 fails and moves nothing.
    let owner = named(1);
    let depositor = named(2);
    let recipient = named(3);
    let non_owner = named(4);
    let reserve = wallet_reserve();

    let program = program_address();
    let (treasury, treasury_salt, central_wallet) = derive_for(&owner, &program);
    let mut ledger = Ledger::new(program);
    ledger.fund(&owner, sol(1));
    ledger.fund(&depositor, sol(1));
    ledger.fund(&central_wallet, reserve);

    let init = InitializeCentralWallet { owner, central_wallet };
    initialize_central_wallet(&mut ledger, &init, treasury_salt).unwrap();

    let dep = DepositSol { depositor, central_wallet };
    deposit(&mut ledger, &dep, 50).unwrap();
    assert_eq!(ledger.balance_of(&central_wallet), 50 + reserve);

    let wd = AdminWithdraw { treasury, owner, central_wallet, recipient };
    admin_withdraw(&mut ledger, &wd, 25).unwrap();
    assert_eq!(ledger.balance_of(&central_wallet), 25 + reserve);
    assert_eq!(ledger.balance_of(&recipient), 25);

    let bad = AdminWithdraw { treasury, owner: non_owner, central_wallet, recipient };
    let result = admin_withdraw(&mut ledger, &bad, 25);
    assert_eq!(result, Err(TreasuryError::UnauthorizedWithdrawal));
    assert_eq!(ledger.balance_of(&central_wallet), 25 + reserve);
    assert_eq!(ledger.balance_of(&recipient), 25);
}
