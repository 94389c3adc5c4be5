use vstd::prelude::*;

use crate::address::{is_canonical_derivation, lemma_canonical_derivation_unique, salted_derivation,
    treasury_label, wallet_label};
use crate::engine::{deposit_spec, initialize_spec, withdraw_spec, AdminWithdraw, DepositSol,
    InitializeCentralWallet};
use crate::errors::TreasuryError;
use crate::ledger::{lemma_seq_record_at_push, min_reserve_of, Ledger, TreasuryAccount};

verus! {

/// A successful initialization stores a record at the owner's canonical
/// treasury address, and leaves the program identity as it was.
pub proof fn lemma_initialize_creates_record(
    pre: Ledger,
    req: InitializeCentralWallet,
    treasury_salt: u8,
    post: Ledger,
)
    requires
        initialize_spec(pre, req, treasury_salt, post, Ok(())),
    ensures
        post.program_id == pre.program_id,
        exists|t: Seq<u8>|
            is_canonical_derivation(treasury_label(), req.owner@, pre.program_id@, t, treasury_salt)
                && post.record_at(t) is Some,
{
    let prog = pre.program_id@;
    let taddr = choose|t: Seq<u8>|
        is_canonical_derivation(treasury_label(), req.owner@, prog, t, treasury_salt);
    assert(post.records@ =~= pre.records@.push(post.records@.last()));
    lemma_seq_record_at_push(pre.records@, post.records@.last(), taddr);
    assert(post.record_at(taddr) is Some);
}

/// Every record a successful initialization writes is initialized,
/// carries the requesting owner, and binds its central wallet to the
/// canonical derivation from that owner at the stored salt — the
/// wallet field is never independently settable.
pub proof fn lemma_record_binds_canonical_wallet(
    pre: Ledger,
    req: InitializeCentralWallet,
    treasury_salt: u8,
    post: Ledger,
)
    requires
        initialize_spec(pre, req, treasury_salt, post, Ok(())),
    ensures
        ({
            let rec = post.records@.last().record;
            &&& rec.initialized
            &&& rec.owner == req.owner
            &&& rec.central_wallet == req.central_wallet
            &&& is_canonical_derivation(
                wallet_label(),
                req.owner@,
                pre.program_id@,
                rec.central_wallet@,
                rec.derivation_salt,
            )
        }),
{
}

/// Once a record sits at the owner's canonical treasury address, any
/// further initialization with that owner and salt fails with
/// `AlreadyInitialized` and changes nothing.
pub proof fn lemma_initialize_blocked(
    pre: Ledger,
    req: InitializeCentralWallet,
    treasury_salt: u8,
    post: Ledger,
    r: Result<(), TreasuryError>,
    taddr: Seq<u8>,
)
    requires
        initialize_spec(pre, req, treasury_salt, post, r),
        is_canonical_derivation(treasury_label(), req.owner@, pre.program_id@, taddr, treasury_salt),
        pre.record_at(taddr) is Some,
    ensures
        r == Err::<(), TreasuryError>(TreasuryError::AlreadyInitialized),
        post == pre,
{
    let prog = pre.program_id@;
    let t = choose|t: Seq<u8>|
        is_canonical_derivation(treasury_label(), req.owner@, prog, t, treasury_salt);
    lemma_canonical_derivation_unique(
        treasury_label(),
        req.owner@,
        prog,
        t,
        treasury_salt,
        taddr,
        treasury_salt,
    );
}

/// Deposits never touch the stored records or the program identity.
pub proof fn lemma_deposit_preserves_records(
    pre: Ledger,
    req: DepositSol,
    amount: u64,
    post: Ledger,
    r: Result<(), TreasuryError>,
)
    requires
        deposit_spec(pre, req, amount, post, r),
    ensures
        post.records@ == pre.records@,
        post.program_id == pre.program_id,
{
}

/// Withdrawals never touch the stored records or the program identity:
/// a record, once written, is immutable under every operation, so
/// `initialized` never returns to false and the stored owner, wallet
/// and salt never change.
pub proof fn lemma_withdraw_preserves_records(
    pre: Ledger,
    req: AdminWithdraw,
    amount: u64,
    post: Ledger,
    r: Result<(), TreasuryError>,
)
    requires
        withdraw_spec(pre, req, amount, post, r),
    ensures
        post.records@ == pre.records@,
        post.program_id == pre.program_id,
{
}

/// Single initialization: after one initialize for an owner succeeds, a
/// second attempt with the same owner and salt fails with
/// `AlreadyInitialized` and changes nothing — whatever deposit happened
/// in between.
pub proof fn lemma_single_initialization(
    l0: Ledger,
    l1: Ledger,
    l2: Ledger,
    l3: Ledger,
    req: InitializeCentralWallet,
    treasury_salt: u8,
    dep: DepositSol,
    dep_amount: u64,
    dep_r: Result<(), TreasuryError>,
    r2: Result<(), TreasuryError>,
)
    requires
        initialize_spec(l0, req, treasury_salt, l1, Ok(())),
        deposit_spec(l1, dep, dep_amount, l2, dep_r),
        initialize_spec(l2, req, treasury_salt, l3, r2),
    ensures
        r2 == Err::<(), TreasuryError>(TreasuryError::AlreadyInitialized),
        l3 == l2,
{
    lemma_initialize_creates_record(l0, req, treasury_salt, l1);
    lemma_deposit_preserves_records(l1, dep, dep_amount, l2, dep_r);
    let t = choose|t: Seq<u8>|
        is_canonical_derivation(treasury_label(), req.owner@, l0.program_id@, t, treasury_salt)
            && l1.record_at(t) is Some;
    assert(l2.record_at(t) == l1.record_at(t));
    lemma_initialize_blocked(l2, req, treasury_salt, l3, r2, t);
}

/// Withdrawal authorization: a withdraw whose signer differs from the
/// stored owner of the targeted treasury record fails with
/// `UnauthorizedWithdrawal`, and every balance — the central wallet's
/// included — is unchanged.
pub proof fn lemma_withdraw_requires_owner(
    pre: Ledger,
    req: AdminWithdraw,
    amount: u64,
    post: Ledger,
    r: Result<(), TreasuryError>,
    rec: TreasuryAccount,
)
    requires
        withdraw_spec(pre, req, amount, post, r),
        pre.record_at(req.treasury@) == Some(rec),
        rec.owner@ != req.owner@,
    ensures
        r == Err::<(), TreasuryError>(TreasuryError::UnauthorizedWithdrawal),
        post == pre,
{
}

/// Deposit conservation: any depositor with a positive amount within
/// its balance succeeds — no identity is consulted — and the wallet
/// gains exactly what the depositor loses, with total value conserved.
pub proof fn lemma_deposit_conservation(
    pre: Ledger,
    req: DepositSol,
    amount: u64,
    post: Ledger,
    r: Result<(), TreasuryError>,
)
    requires
        deposit_spec(pre, req, amount, post, r),
        pre.balance(req.depositor@) >= amount,
        req.depositor@ != req.central_wallet@,
    ensures
        r == Ok::<(), TreasuryError>(()),
        post.balance(req.central_wallet@) == pre.balance(req.central_wallet@) + amount,
        post.balance(req.depositor@) + amount == pre.balance(req.depositor@),
        post.total() == pre.total(),
{
}

/// Withdrawal conservation: a withdraw by the stored owner for an
/// amount within the spendable balance succeeds, the recipient gains
/// exactly `amount`, the wallet loses exactly `amount`, and total value
/// is conserved.
pub proof fn lemma_withdraw_conservation(
    pre: Ledger,
    req: AdminWithdraw,
    amount: u64,
    post: Ledger,
    r: Result<(), TreasuryError>,
    rec: TreasuryAccount,
)
    requires
        withdraw_spec(pre, req, amount, post, r),
        pre.record_at(req.treasury@) == Some(rec),
        rec.owner@ == req.owner@,
        rec.initialized,
        salted_derivation(wallet_label(), req.owner@, rec.derivation_salt, pre.program_id@)
            == Some(req.central_wallet@),
        pre.balance(req.central_wallet@) >= min_reserve_of(0) + amount,
        req.central_wallet@ != req.recipient@,
    ensures
        r == Ok::<(), TreasuryError>(()),
        post.balance(req.central_wallet@) + amount == pre.balance(req.central_wallet@),
        post.balance(req.recipient@) == pre.balance(req.recipient@) + amount,
        post.balance(req.central_wallet@) >= min_reserve_of(0),
        post.total() == pre.total(),
{
}

/// Overdraw rejection: a withdraw for more than the spendable balance
/// fails with `InsufficientFunds` and leaves all balances unchanged.
pub proof fn lemma_overdraw_rejected(
    pre: Ledger,
    req: AdminWithdraw,
    amount: u64,
    post: Ledger,
    r: Result<(), TreasuryError>,
    rec: TreasuryAccount,
)
    requires
        withdraw_spec(pre, req, amount, post, r),
        pre.record_at(req.treasury@) == Some(rec),
        rec.owner@ == req.owner@,
        rec.initialized,
        salted_derivation(wallet_label(), req.owner@, rec.derivation_salt, pre.program_id@)
            == Some(req.central_wallet@),
        pre.balance(req.central_wallet@) < min_reserve_of(0) + amount,
    ensures
        r == Err::<(), TreasuryError>(TreasuryError::InsufficientFunds),
        post == pre,
{
}

} // verus!
