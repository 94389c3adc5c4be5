use vstd::prelude::*;

use crate::address::{
    derivation_matches, find_derivation, is_canonical_derivation, lemma_canonical_derivation_unique,
    salted_derivation, treasury_label, treasury_label_bytes, wallet_label, wallet_label_bytes,
    Address, DerivedAuthority,
};
use crate::errors::TreasuryError;
use crate::ledger::{
    meets_reserve, min_reserve_of, transfer_spec, wallet_reserve, Ledger, TreasuryAccount,
};

verus! {

/// The accounts an initialization names. `owner` has signed the request
/// (the ledger guarantees the signature) and pays for the record's
/// storage; `central_wallet` is the derived wallet the caller expects.
#[derive(Clone, Copy, Debug)]
pub struct InitializeCentralWallet {
    pub owner: Address,
    pub central_wallet: Address,
}

/// The accounts a deposit names. `depositor` has signed the request;
/// any principal may deposit.
#[derive(Clone, Copy, Debug)]
pub struct DepositSol {
    pub depositor: Address,
    pub central_wallet: Address,
}

/// The accounts a withdrawal names. `owner` has signed the request;
/// `treasury` is the record address the caller points at.
#[derive(Clone, Copy, Debug)]
pub struct AdminWithdraw {
    pub treasury: Address,
    pub owner: Address,
    pub central_wallet: Address,
    pub recipient: Address,
}

/// What initialization does. In order, first failure wins: the supplied
/// salt must be the canonical treasury salt for the owner; the derived
/// record address must be free; the supplied wallet must be the owner's
/// canonical derived wallet; the wallet must already meet the reserve.
/// On success exactly one record is appended — owner, wallet, the
/// wallet's canonical salt, initialized — and no balance moves.
pub open spec fn initialize_spec(
    pre: Ledger,
    req: InitializeCentralWallet,
    treasury_salt: u8,
    post: Ledger,
    r: Result<(), TreasuryError>,
) -> bool {
    let prog = pre.program_id@;
    if !(exists|t: Seq<u8>|
        is_canonical_derivation(treasury_label(), req.owner@, prog, t, treasury_salt)) {
        &&& r == Err::<(), TreasuryError>(TreasuryError::InvalidWalletDerivation)
        &&& post == pre
    } else {
        let taddr = choose|t: Seq<u8>|
            is_canonical_derivation(treasury_label(), req.owner@, prog, t, treasury_salt);
        if pre.record_at(taddr) is Some {
            &&& r == Err::<(), TreasuryError>(TreasuryError::AlreadyInitialized)
            &&& post == pre
        } else if !(exists|ws: u8|
            is_canonical_derivation(wallet_label(), req.owner@, prog, req.central_wallet@, ws)) {
            &&& r == Err::<(), TreasuryError>(TreasuryError::InvalidWalletDerivation)
            &&& post == pre
        } else if pre.balance(req.central_wallet@) < min_reserve_of(0) {
            &&& r == Err::<(), TreasuryError>(TreasuryError::InsufficientReserve)
            &&& post == pre
        } else {
            let wsalt = choose|ws: u8|
                is_canonical_derivation(wallet_label(), req.owner@, prog, req.central_wallet@, ws);
            &&& r == Ok::<(), TreasuryError>(())
            &&& post.program_id == pre.program_id
            &&& post.accounts@ == pre.accounts@
            &&& post.records@.len() == pre.records@.len() + 1
            &&& post.records@.drop_last() == pre.records@
            &&& post.records@.last().address@ == taddr
            &&& post.records@.last().record == (TreasuryAccount {
                owner: req.owner,
                central_wallet: req.central_wallet,
                derivation_salt: wsalt,
                initialized: true,
            })
        }
    }
}

/// What a deposit does: exactly the ledger's transfer primitive from
/// the depositor to the central wallet — no ownership or record check.
pub open spec fn deposit_spec(
    pre: Ledger,
    req: DepositSol,
    amount: u64,
    post: Ledger,
    r: Result<(), TreasuryError>,
) -> bool {
    transfer_spec(pre, req.depositor@, req.central_wallet@, amount, post, r)
}

/// What a withdrawal does. In order, first failure wins: the record at
/// the supplied address must exist and its owner must be the signer;
/// the record must be initialized; the supplied wallet must match the
/// derivation from the owner and the stored salt; the wallet balance
/// minus the reserve must cover the amount. Then value moves from the
/// wallet to the recipient under derived authority.
pub open spec fn withdraw_spec(
    pre: Ledger,
    req: AdminWithdraw,
    amount: u64,
    post: Ledger,
    r: Result<(), TreasuryError>,
) -> bool {
    match pre.record_at(req.treasury@) {
        None => {
            &&& r == Err::<(), TreasuryError>(TreasuryError::UnauthorizedWithdrawal)
            &&& post == pre
        },
        Some(rec) => {
            if rec.owner@ != req.owner@ {
                &&& r == Err::<(), TreasuryError>(TreasuryError::UnauthorizedWithdrawal)
                &&& post == pre
            } else if !rec.initialized {
                &&& r == Err::<(), TreasuryError>(TreasuryError::TreasuryNotInitialized)
                &&& post == pre
            } else if salted_derivation(
                wallet_label(),
                req.owner@,
                rec.derivation_salt,
                pre.program_id@,
            ) != Some(req.central_wallet@) {
                &&& r == Err::<(), TreasuryError>(TreasuryError::InvalidWalletDerivation)
                &&& post == pre
            } else if pre.balance(req.central_wallet@) < min_reserve_of(0) + amount {
                &&& r == Err::<(), TreasuryError>(TreasuryError::InsufficientFunds)
                &&& post == pre
            } else {
                transfer_spec(pre, req.central_wallet@, req.recipient@, amount, post, r)
            }
        },
    }
}

/// Create the treasury record that binds `owner` to its derived central
/// wallet. The caller supplies the treasury salt it derived earlier and
/// the wallet address it expects; both are checked against the
/// canonical derivation. No value moves in this step.
pub fn initialize_central_wallet(
    ledger: &mut Ledger,
    accounts: &InitializeCentralWallet,
    treasury_salt: u8,
) -> (r: Result<(), TreasuryError>)
    requires
        old(ledger).wf(),
    ensures
        final(ledger).wf(),
        initialize_spec(*old(ledger), *accounts, treasury_salt, *final(ledger), r),
{
    let ghost pre = *ledger;
    let program = ledger.program_id;
    let tlabel = treasury_label_bytes();
    match find_derivation(tlabel.as_slice(), &accounts.owner, &program) {
        None => {
            proof {
                if exists|t: Seq<u8>|
                    is_canonical_derivation(
                        treasury_label(),
                        accounts.owner@,
                        program@,
                        t,
                        treasury_salt,
                    ) {
                    let t = choose|t: Seq<u8>|
                        is_canonical_derivation(
                            treasury_label(),
                            accounts.owner@,
                            program@,
                            t,
                            treasury_salt,
                        );
                    assert(salted_derivation(
                        treasury_label(),
                        accounts.owner@,
                        treasury_salt,
                        program@,
                    ) is None);
                }
            }
            Err(TreasuryError::InvalidWalletDerivation)
        },
        Some((taddr, tsalt)) => {
            if tsalt != treasury_salt {
                proof {
                    if exists|t: Seq<u8>|
                        is_canonical_derivation(
                            treasury_label(),
                            accounts.owner@,
                            program@,
                            t,
                            treasury_salt,
                        ) {
                        let t = choose|t: Seq<u8>|
                            is_canonical_derivation(
                                treasury_label(),
                                accounts.owner@,
                                program@,
                                t,
                                treasury_salt,
                            );
                        lemma_canonical_derivation_unique(
                            treasury_label(),
                            accounts.owner@,
                            program@,
                            t,
                            treasury_salt,
                            taddr@,
                            tsalt,
                        );
                    }
                }
                return Err(TreasuryError::InvalidWalletDerivation);
            }
            proof {
                let t = choose|t: Seq<u8>|
                    is_canonical_derivation(
                        treasury_label(),
                        accounts.owner@,
                        program@,
                        t,
                        treasury_salt,
                    );
                lemma_canonical_derivation_unique(
                    treasury_label(),
                    accounts.owner@,
                    program@,
                    t,
                    treasury_salt,
                    taddr@,
                    tsalt,
                );
            }
            match ledger.record_of(&taddr) {
                Some(_) => Err(TreasuryError::AlreadyInitialized),
                None => {
                    let wlabel = wallet_label_bytes();
                    match find_derivation(wlabel.as_slice(), &accounts.owner, &program) {
                        None => {
                            proof {
                                if exists|ws: u8|
                                    is_canonical_derivation(
                                        wallet_label(),
                                        accounts.owner@,
                                        program@,
                                        accounts.central_wallet@,
                                        ws,
                                    ) {
                                    let ws = choose|ws: u8|
                                        is_canonical_derivation(
                                            wallet_label(),
                                            accounts.owner@,
                                            program@,
                                            accounts.central_wallet@,
                                            ws,
                                        );
                                    assert(salted_derivation(
                                        wallet_label(),
                                        accounts.owner@,
                                        ws,
                                        program@,
                                    ) is None);
                                }
                            }
                            Err(TreasuryError::InvalidWalletDerivation)
                        },
                        Some((wallet, wsalt)) => {
                            if !wallet.equals(&accounts.central_wallet) {
                                proof {
                                    if exists|ws: u8|
                                        is_canonical_derivation(
                                            wallet_label(),
                                            accounts.owner@,
                                            program@,
                                            accounts.central_wallet@,
                                            ws,
                                        ) {
                                        let ws = choose|ws: u8|
                                            is_canonical_derivation(
                                                wallet_label(),
                                                accounts.owner@,
                                                program@,
                                                accounts.central_wallet@,
                                                ws,
                                            );
                                        lemma_canonical_derivation_unique(
                                            wallet_label(),
                                            accounts.owner@,
                                            program@,
                                            accounts.central_wallet@,
                                            ws,
                                            wallet@,
                                            wsalt,
                                        );
                                    }
                                }
                                return Err(TreasuryError::InvalidWalletDerivation);
                            }
                            proof {
                                let ws = choose|ws: u8|
                                    is_canonical_derivation(
                                        wallet_label(),
                                        accounts.owner@,
                                        program@,
                                        accounts.central_wallet@,
                                        ws,
                                    );
                                lemma_canonical_derivation_unique(
                                    wallet_label(),
                                    accounts.owner@,
                                    program@,
                                    accounts.central_wallet@,
                                    ws,
                                    accounts.central_wallet@,
                                    wsalt,
                                );
                            }
                            let bal = ledger.balance_of(&accounts.central_wallet);
                            if !meets_reserve(bal, 0) {
                                return Err(TreasuryError::InsufficientReserve);
                            }
                            let rec = TreasuryAccount {
                                owner: accounts.owner,
                                central_wallet: accounts.central_wallet,
                                derivation_salt: wsalt,
                                initialized: true,
                            };
                            let res = ledger.create_record(&taddr, rec);
                            proof {
                                assert(final(ledger).records@.drop_last() =~= pre.records@);
                            }
                            res
                        },
                    }
                },
            }
        },
    }
}

/// Move `amount` from the depositor to the central wallet. Deposits are
/// permissionless: no treasury record or ownership is consulted, and
/// the wallet may be funded before initialization.
pub fn deposit(ledger: &mut Ledger, accounts: &DepositSol, amount: u64) -> (r: Result<
    (),
    TreasuryError,
>)
    requires
        old(ledger).wf(),
        amount >= 1,
    ensures
        final(ledger).wf(),
        deposit_spec(*old(ledger), *accounts, amount, *final(ledger), r),
{
    ledger.transfer(&accounts.depositor, &accounts.central_wallet, amount)
}

/// Move `amount` from the central wallet to the recipient, authorized
/// by the signing owner and executed under authority reconstructed from
/// the wallet's derivation seeds.
pub fn admin_withdraw(ledger: &mut Ledger, accounts: &AdminWithdraw, amount: u64) -> (r: Result<
    (),
    TreasuryError,
>)
    requires
        old(ledger).wf(),
    ensures
        final(ledger).wf(),
        withdraw_spec(*old(ledger), *accounts, amount, *final(ledger), r),
{
    let program = ledger.program_id;
    match ledger.record_of(&accounts.treasury) {
        None => Err(TreasuryError::UnauthorizedWithdrawal),
        Some(rec) => {
            if !rec.owner.equals(&accounts.owner) {
                return Err(TreasuryError::UnauthorizedWithdrawal);
            }
            if !rec.initialized {
                return Err(TreasuryError::TreasuryNotInitialized);
            }
            let wlabel = wallet_label_bytes();
            if !derivation_matches(
                wlabel.as_slice(),
                &accounts.owner,
                rec.derivation_salt,
                &program,
                &accounts.central_wallet,
            ) {
                return Err(TreasuryError::InvalidWalletDerivation);
            }
            let reserve = wallet_reserve();
            let bal = ledger.balance_of(&accounts.central_wallet);
            if bal < reserve || bal - reserve < amount {
                return Err(TreasuryError::InsufficientFunds);
            }
            let auth = DerivedAuthority {
                label: wlabel,
                owner: accounts.owner,
                salt: rec.derivation_salt,
            };
            ledger.transfer_with_authority(&auth, &accounts.recipient, amount)
        },
    }
}

} // verus!
