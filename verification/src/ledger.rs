use vstd::prelude::*;
use vstd::pervasive::VecAdditionalExecFns;

use crate::address::{derive_with_salt, salted_derivation, Address, DerivedAuthority};
use crate::errors::TreasuryError;

verus! {

/// One value account: an address and the balance it holds.
#[derive(Clone, Copy, Debug)]
pub struct Account {
    pub address: Address,
    pub balance: u64,
}

/// The persistent metadata binding one owner to its derived central
/// wallet; created once by initialize and never mutated afterwards.
#[derive(Clone, Copy, Debug)]
pub struct TreasuryAccount {
    /// The controlling principal. Immutable after creation.
    pub owner: Address,
    /// The derived custodial wallet this record governs.
    pub central_wallet: Address,
    /// The salt under which `central_wallet` derives from `owner`.
    pub derivation_salt: u8,
    /// False until creation completes; prevents re-initialization.
    pub initialized: bool,
}

/// A treasury record together with the derived address it is stored at.
#[derive(Clone, Copy, Debug)]
pub struct StoredRecord {
    pub address: Address,
    pub record: TreasuryAccount,
}

/// The sum of the balances that entries with address view `a` hold.
pub open spec fn seq_balance(s: Seq<Account>, a: Seq<u8>) -> nat
    decreases s.len(),
{
    if s.len() == 0 {
        0
    } else {
        (if s[0].address@ == a {
            s[0].balance as nat
        } else {
            0nat
        }) + seq_balance(s.drop_first(), a)
    }
}

/// The sum of all balances in the ledger.
pub open spec fn seq_total(s: Seq<Account>) -> nat
    decreases s.len(),
{
    if s.len() == 0 {
        0
    } else {
        s[0].balance as nat + seq_total(s.drop_first())
    }
}

/// The record stored at address view `a`, if one is.
pub open spec fn seq_record_at(s: Seq<StoredRecord>, a: Seq<u8>) -> Option<TreasuryAccount>
    decreases s.len(),
{
    if s.len() == 0 {
        None
    } else if s[0].address@ == a {
        Some(s[0].record)
    } else {
        seq_record_at(s.drop_first(), a)
    }
}

/// An in-memory account ledger: the external collaborator that funds,
/// stores and transfers value, with the program identity it was
/// configured with at construction.
pub struct Ledger {
    /// The fixed identity under which addresses are derived.
    pub program_id: Address,
    /// The value accounts.
    pub accounts: Vec<Account>,
    /// The treasury records, each at its derived storage address.
    pub records: Vec<StoredRecord>,
}

impl Ledger {
    /// The balance held at `a`; an address with no account holds zero.
    pub open spec fn balance(self, a: Seq<u8>) -> nat {
        seq_balance(self.accounts@, a)
    }

    /// Total value across all accounts.
    pub open spec fn total(self) -> nat {
        seq_total(self.accounts@)
    }

    /// The treasury record stored at `a`, if any.
    pub open spec fn record_at(self, a: Seq<u8>) -> Option<TreasuryAccount> {
        seq_record_at(self.records@, a)
    }

    /// Each address holds at most one account and one record, and the
    /// total value fits the balance type.
    pub open spec fn wf(self) -> bool {
        &&& forall|i: int, j: int|
            0 <= i < j < self.accounts@.len() ==> self.accounts@[i].address@
                != self.accounts@[j].address@
        &&& forall|i: int, j: int|
            0 <= i < j < self.records@.len() ==> self.records@[i].address@
                != self.records@[j].address@
        &&& self.total() <= u64::MAX
    }
}

proof fn lemma_seq_balance_le_total(s: Seq<Account>, a: Seq<u8>)
    ensures
        seq_balance(s, a) <= seq_total(s),
    decreases s.len(),
{
    if s.len() > 0 {
        lemma_seq_balance_le_total(s.drop_first(), a);
    }
}

proof fn lemma_seq_balance_absent(s: Seq<Account>, a: Seq<u8>)
    requires
        forall|j: int| 0 <= j < s.len() ==> s[j].address@ != a,
    ensures
        seq_balance(s, a) == 0,
    decreases s.len(),
{
    if s.len() > 0 {
        lemma_seq_balance_absent(s.drop_first(), a);
    }
}

proof fn lemma_seq_balance_at(s: Seq<Account>, i: int)
    requires
        0 <= i < s.len(),
        forall|j: int| 0 <= j < s.len() && j != i ==> s[j].address@ != s[i].address@,
    ensures
        seq_balance(s, s[i].address@) == s[i].balance,
    decreases s.len(),
{
    if i == 0 {
        lemma_seq_balance_absent(s.drop_first(), s[0].address@);
    } else {
        lemma_seq_balance_at(s.drop_first(), i - 1);
    }
}

proof fn lemma_seq_balance_update(s: Seq<Account>, i: int, acc: Account, b: Seq<u8>)
    requires
        0 <= i < s.len(),
    ensures
        seq_balance(s.update(i, acc), b) + (if s[i].address@ == b {
            s[i].balance as nat
        } else {
            0nat
        }) == seq_balance(s, b) + (if acc.address@ == b {
            acc.balance as nat
        } else {
            0nat
        }),
    decreases s.len(),
{
    if i == 0 {
        assert(s.update(0, acc).drop_first() =~= s.drop_first());
    } else {
        assert(s.update(i, acc).drop_first() =~= s.drop_first().update(i - 1, acc));
        lemma_seq_balance_update(s.drop_first(), i - 1, acc, b);
    }
}

proof fn lemma_seq_total_update(s: Seq<Account>, i: int, acc: Account)
    requires
        0 <= i < s.len(),
    ensures
        seq_total(s.update(i, acc)) + s[i].balance == seq_total(s) + acc.balance,
    decreases s.len(),
{
    if i == 0 {
        assert(s.update(0, acc).drop_first() =~= s.drop_first());
    } else {
        assert(s.update(i, acc).drop_first() =~= s.drop_first().update(i - 1, acc));
        lemma_seq_total_update(s.drop_first(), i - 1, acc);
    }
}

proof fn lemma_seq_balance_push(s: Seq<Account>, acc: Account, b: Seq<u8>)
    ensures
        seq_balance(s.push(acc), b) == seq_balance(s, b) + (if acc.address@ == b {
            acc.balance as nat
        } else {
            0nat
        }),
    decreases s.len(),
{
    assert(s.push(acc).len() == s.len() + 1);
    if s.len() == 0 {
        assert(s.push(acc)[0] == acc);
        assert(s.push(acc).drop_first() =~= Seq::<Account>::empty());
        assert(seq_balance(s.push(acc).drop_first(), b) == 0);
        assert(seq_balance(s.push(acc), b) == (if acc.address@ == b {
            acc.balance as nat
        } else {
            0nat
        }) + seq_balance(s.push(acc).drop_first(), b));
    } else {
        assert(s.push(acc)[0] == s[0]);
        assert(s.push(acc).drop_first() =~= s.drop_first().push(acc));
        lemma_seq_balance_push(s.drop_first(), acc, b);
        assert(seq_balance(s.push(acc), b) == (if s[0].address@ == b {
            s[0].balance as nat
        } else {
            0nat
        }) + seq_balance(s.drop_first().push(acc), b));
    }
}

proof fn lemma_seq_total_push(s: Seq<Account>, acc: Account)
    ensures
        seq_total(s.push(acc)) == seq_total(s) + acc.balance,
    decreases s.len(),
{
    assert(s.push(acc).len() == s.len() + 1);
    if s.len() == 0 {
        assert(s.push(acc)[0] == acc);
        assert(s.push(acc).drop_first() =~= Seq::<Account>::empty());
        assert(seq_total(s.push(acc).drop_first()) == 0);
        assert(seq_total(s.push(acc)) == acc.balance as nat + seq_total(s.push(acc).drop_first()));
    } else {
        assert(s.push(acc)[0] == s[0]);
        assert(s.push(acc).drop_first() =~= s.drop_first().push(acc));
        lemma_seq_total_push(s.drop_first(), acc);
        assert(seq_total(s.push(acc)) == s[0].balance as nat + seq_total(s.drop_first().push(acc)));
    }
}

proof fn lemma_seq_record_at_first(s: Seq<StoredRecord>, i: int)
    requires
        0 <= i < s.len(),
        forall|k: int| 0 <= k < i ==> s[k].address@ != s[i].address@,
    ensures
        seq_record_at(s, s[i].address@) == Some(s[i].record),
    decreases s.len(),
{
    if i > 0 {
        lemma_seq_record_at_first(s.drop_first(), i - 1);
    }
}

proof fn lemma_seq_record_at_none(s: Seq<StoredRecord>, a: Seq<u8>)
    requires
        seq_record_at(s, a) is None,
    ensures
        forall|j: int| 0 <= j < s.len() ==> s[j].address@ != a,
    decreases s.len(),
{
    if s.len() > 0 {
        lemma_seq_record_at_none(s.drop_first(), a);
        assert forall|j: int| 0 <= j < s.len() implies s[j].address@ != a by {
            if j > 0 {
                assert(s.drop_first()[j - 1] == s[j]);
            }
        }
    }
}

pub(crate) proof fn lemma_seq_record_at_push(s: Seq<StoredRecord>, rec: StoredRecord, b: Seq<u8>)
    ensures
        seq_record_at(s.push(rec), b) == (match seq_record_at(s, b) {
            Some(r0) => Some(r0),
            None => if rec.address@ == b {
                Some(rec.record)
            } else {
                None::<TreasuryAccount>
            },
        }),
    decreases s.len(),
{
    assert(s.push(rec).len() == s.len() + 1);
    if s.len() == 0 {
        assert(s.push(rec)[0] == rec);
        assert(s.push(rec).drop_first() =~= Seq::<StoredRecord>::empty());
        assert(seq_record_at(s.push(rec).drop_first(), b) is None);
        if rec.address@ != b {
            assert(seq_record_at(s.push(rec), b) == seq_record_at(s.push(rec).drop_first(), b));
        }
    } else {
        assert(s.push(rec)[0] == s[0]);
        assert(s.push(rec).drop_first() =~= s.drop_first().push(rec));
        lemma_seq_record_at_push(s.drop_first(), rec, b);
        if s[0].address@ != b {
            assert(seq_record_at(s.push(rec), b) == seq_record_at(s.drop_first().push(rec), b));
        }
    }
}

fn find_account_index(accounts: &Vec<Account>, a: &Address) -> (r: Option<usize>)
    ensures
        r matches Some(i) ==> i < accounts@.len() && accounts@[i as int].address@ == a@,
        r is None ==> forall|j: int| 0 <= j < accounts@.len() ==> accounts@[j].address@ != a@,
{
    let mut k: usize = 0;
    while k < accounts.len()
        invariant
            k <= accounts@.len(),
            forall|j: int| 0 <= j < k ==> accounts@[j].address@ != a@,
        decreases accounts@.len() - k,
    {
        if accounts[k].address.equals(a) {
            return Some(k);
        }
        k = k + 1;
    }
    None
}

fn find_record_index(records: &Vec<StoredRecord>, a: &Address) -> (r: Option<usize>)
    ensures
        r matches Some(i) ==> i < records@.len() && records@[i as int].address@ == a@
            && seq_record_at(records@, a@) == Some(records@[i as int].record),
        r is None ==> seq_record_at(records@, a@) is None,
{
    let mut k: usize = 0;
    while k < records.len()
        invariant
            k <= records@.len(),
            forall|j: int| 0 <= j < k ==> records@[j].address@ != a@,
        decreases records@.len() - k,
    {
        if records[k].address.equals(a) {
            proof {
                lemma_seq_record_at_first(records@, k as int);
            }
            return Some(k);
        }
        k = k + 1;
    }
    proof {
        if seq_record_at(records@, a@) is Some {
            lemma_record_some_has_index(records@, a@);
        }
    }
    None
}

proof fn lemma_record_some_has_index(s: Seq<StoredRecord>, a: Seq<u8>)
    requires
        seq_record_at(s, a) is Some,
    ensures
        exists|j: int| 0 <= j < s.len() && s[j].address@ == a,
    decreases s.len(),
{
    if s.len() > 0 && s[0].address@ != a {
        lemma_record_some_has_index(s.drop_first(), a);
        let j = choose|j: int| 0 <= j < s.drop_first().len() && s.drop_first()[j].address@ == a;
        assert(s[j + 1].address@ == a);
    }
}

/// What the value-transfer primitive does: on insufficient balance it
/// fails atomically; otherwise it debits `from` and credits `to` by
/// exactly `amount`, touches no other balance and no record, and
/// conserves the total value.
pub open spec fn transfer_spec(
    pre: Ledger,
    from: Seq<u8>,
    to: Seq<u8>,
    amount: u64,
    post: Ledger,
    r: Result<(), TreasuryError>,
) -> bool {
    if pre.balance(from) < amount {
        &&& r == Err::<(), TreasuryError>(TreasuryError::TransferFailed)
        &&& post == pre
    } else {
        &&& r == Ok::<(), TreasuryError>(())
        &&& post.program_id == pre.program_id
        &&& post.records@ == pre.records@
        &&& post.total() == pre.total()
        &&& if from == to {
            forall|b: Seq<u8>| post.balance(b) == pre.balance(b)
        } else {
            &&& post.balance(from) + amount == pre.balance(from)
            &&& post.balance(to) == pre.balance(to) + amount
            &&& forall|b: Seq<u8>|
                b != from && b != to ==> post.balance(b) == pre.balance(b)
        }
    }
}

/// What the storage-creation primitive does: it fails if the address is
/// occupied, and otherwise stores the record there, touching no balance.
pub open spec fn create_record_spec(
    pre: Ledger,
    addr: Address,
    rec: TreasuryAccount,
    post: Ledger,
    r: Result<(), TreasuryError>,
) -> bool {
    if pre.record_at(addr@) is Some {
        &&& r == Err::<(), TreasuryError>(TreasuryError::AlreadyInitialized)
        &&& post == pre
    } else {
        &&& r == Ok::<(), TreasuryError>(())
        &&& post.program_id == pre.program_id
        &&& post.accounts@ == pre.accounts@
        &&& post.records@ == pre.records@.push(StoredRecord { address: addr, record: rec })
    }
}

/// The minimum balance the ledger requires of an account that stores
/// `data_len` bytes, under the default rent configuration.
pub uninterp spec fn min_reserve_of(data_len: nat) -> nat;

/// Relies on Rent::minimum_balance of solana-rent (the type anchor_lang
/// re-exports as prelude::Rent), with its default configuration: the
/// reserve requirement depends on the stored byte length alone.
#[verifier::external_body]
fn rent_minimum_balance(data_len: u64) -> (r: u64)
    ensures
        r == min_reserve_of(data_len as nat),
{
    anchor_lang::prelude::Rent::default().minimum_balance(data_len as usize)
}

/// The reserve a plain value account with no stored data must keep.
pub fn wallet_reserve() -> (r: u64)
    ensures
        r == min_reserve_of(0),
{
    rent_minimum_balance(0)
}

/// Whether `balance` meets the ledger's minimum reserve for an account
/// storing `data_len` bytes.
pub fn meets_reserve(balance: u64, data_len: u64) -> (r: bool)
    ensures
        r == (balance >= min_reserve_of(data_len as nat)),
{
    balance >= rent_minimum_balance(data_len)
}

impl Ledger {
    /// A fresh ledger configured with the program identity under which
    /// all addresses will be derived. No account holds any value yet.
    pub fn new(program_id: Address) -> (r: Ledger)
        ensures
            r.program_id == program_id,
            r.wf(),
            r.total() == 0,
            forall|b: Seq<u8>| r.balance(b) == 0,
            r.records@.len() == 0,
    {
        let l = Ledger { program_id, accounts: Vec::new(), records: Vec::new() };
        proof {
            assert forall|b: Seq<u8>| l.balance(b) == 0 by {
                assert(seq_balance(l.accounts@, b) == 0);
            }
        }
        l
    }

    /// The balance held at `a`.
    pub fn balance_of(&self, a: &Address) -> (r: u64)
        requires
            self.wf(),
        ensures
            r == self.balance(a@),
    {
        match find_account_index(&self.accounts, a) {
            Some(i) => {
                proof {
                    lemma_seq_balance_at(self.accounts@, i as int);
                }
                self.accounts[i].balance
            },
            None => {
                proof {
                    lemma_seq_balance_absent(self.accounts@, a@);
                }
                0
            },
        }
    }

    /// The record stored at `a`, if any.
    pub fn record_of(&self, a: &Address) -> (r: Option<TreasuryAccount>)
        ensures
            r == self.record_at(a@),
    {
        match find_record_index(&self.records, a) {
            Some(i) => Some(self.records[i].record),
            None => None,
        }
    }

    /// Credit `a` with freshly issued value; how accounts come to hold
    /// value in the first place, outside the three operations.
    pub fn fund(&mut self, a: &Address, amount: u64)
        requires
            old(self).wf(),
            old(self).total() + amount <= u64::MAX,
        ensures
            final(self).wf(),
            final(self).program_id == old(self).program_id,
            final(self).records@ == old(self).records@,
            final(self).total() == old(self).total() + amount,
            final(self).balance(a@) == old(self).balance(a@) + amount,
            forall|b: Seq<u8>| b != a@ ==> final(self).balance(b) == old(self).balance(b),
    {
        let ghost s0 = self.accounts@;
        match find_account_index(&self.accounts, a) {
            Some(i) => {
                let acc = self.accounts[i];
                proof {
                    lemma_seq_balance_at(s0, i as int);
                    lemma_seq_balance_le_total(s0, a@);
                }
                self.accounts.set(i, Account { address: acc.address, balance: acc.balance + amount });
                proof {
                    assert forall|b: Seq<u8>| #[trigger] final(self).balance(b) + (if s0[i as int].address@ == b { s0[i as int].balance as nat } else { 0nat })
                        == old(self).balance(b) + (if s0[i as int].address@ == b { (s0[i as int].balance + amount) as nat } else { 0nat }) by {
                        lemma_seq_balance_update(s0, i as int, Account { address: acc.address, balance: (acc.balance + amount) as u64 }, b);
                    }
                    lemma_seq_total_update(s0, i as int, Account { address: acc.address, balance: (acc.balance + amount) as u64 });
                    assert forall|p: int, q: int|
                        0 <= p < q < final(self).accounts@.len() implies final(self).accounts@[p].address@
                        != final(self).accounts@[q].address@ by {
                        assert(final(self).accounts@[p].address == s0[p].address);
                        assert(final(self).accounts@[q].address == s0[q].address);
                    }
                }
            },
            None => {
                proof {
                    lemma_seq_balance_absent(s0, a@);
                }
                self.accounts.push(Account { address: *a, balance: amount });
                proof {
                    assert forall|b: Seq<u8>| #[trigger] final(self).balance(b)
                        == old(self).balance(b) + (if a@ == b { amount as nat } else { 0nat }) by {
                        lemma_seq_balance_push(s0, Account { address: *a, balance: amount }, b);
                    }
                    lemma_seq_total_push(s0, Account { address: *a, balance: amount });
                    assert forall|p: int, q: int|
                        0 <= p < q < final(self).accounts@.len() implies final(self).accounts@[p].address@
                        != final(self).accounts@[q].address@ by {
                        if q == s0.len() {
                            assert(final(self).accounts@[p].address@ != a@);
                        }
                    }
                }
            },
        }
    }

    /// The value-transfer primitive: move `amount` from `from` to `to`,
    /// atomically failing on insufficient balance.
    pub fn transfer(&mut self, from: &Address, to: &Address, amount: u64) -> (r: Result<
        (),
        TreasuryError,
    >)
        requires
            old(self).wf(),
        ensures
            final(self).wf(),
            transfer_spec(*old(self), from@, to@, amount, *final(self), r),
    {
        let ghost s0 = self.accounts@;
        match find_account_index(&self.accounts, from) {
            None => {
                proof {
                    lemma_seq_balance_absent(s0, from@);
                }
                if amount == 0 {
                    return Ok(());
                }
                Err(TreasuryError::TransferFailed)
            },
            Some(i) => {
                let from_acc = self.accounts[i];
                proof {
                    lemma_seq_balance_at(s0, i as int);
                }
                if from_acc.balance < amount {
                    return Err(TreasuryError::TransferFailed);
                }
                if from.equals(to) {
                    return Ok(());
                }
                let debited = Account { address: from_acc.address, balance: from_acc.balance - amount };
                self.accounts.set(i, debited);
                let ghost s1 = self.accounts@;
                proof {
                    assert forall|b: Seq<u8>| #[trigger] seq_balance(s1, b) + (if s0[i as int].address@ == b { s0[i as int].balance as nat } else { 0nat })
                        == seq_balance(s0, b) + (if debited.address@ == b { debited.balance as nat } else { 0nat }) by {
                        lemma_seq_balance_update(s0, i as int, debited, b);
                    }
                    lemma_seq_total_update(s0, i as int, debited);
                    assert forall|p: int, q: int|
                        0 <= p < q < s1.len() implies s1[p].address@ != s1[q].address@ by {
                        assert(s1[p].address == s0[p].address);
                        assert(s1[q].address == s0[q].address);
                    }
                    assert(seq_balance(s1, from@) + amount == seq_balance(s0, from@));
                    assert(seq_total(s1) + amount == seq_total(s0));
                }
                match find_account_index(&self.accounts, to) {
                    Some(j) => {
                        let to_acc = self.accounts[j];
                        proof {
                            lemma_seq_balance_at(s1, j as int);
                            lemma_seq_balance_le_total(s1, to@);
                        }
                        let credited = Account { address: to_acc.address, balance: to_acc.balance + amount };
                        self.accounts.set(j, credited);
                        proof {
                            assert forall|b: Seq<u8>| #[trigger] final(self).balance(b) + (if s1[j as int].address@ == b { s1[j as int].balance as nat } else { 0nat })
                                == seq_balance(s1, b) + (if credited.address@ == b { credited.balance as nat } else { 0nat }) by {
                                lemma_seq_balance_update(s1, j as int, credited, b);
                            }
                            lemma_seq_total_update(s1, j as int, credited);
                            assert forall|p: int, q: int|
                                0 <= p < q < final(self).accounts@.len() implies final(self).accounts@[p].address@
                                != final(self).accounts@[q].address@ by {
                                assert(final(self).accounts@[p].address == s1[p].address);
                                assert(final(self).accounts@[q].address == s1[q].address);
                            }
                        }
                        Ok(())
                    },
                    None => {
                        let fresh = Account { address: *to, balance: amount };
                        self.accounts.push(fresh);
                        proof {
                            lemma_seq_balance_absent(s1, to@);
                            assert forall|b: Seq<u8>| #[trigger] final(self).balance(b)
                                == seq_balance(s1, b) + (if to@ == b { amount as nat } else { 0nat }) by {
                                lemma_seq_balance_push(s1, fresh, b);
                            }
                            lemma_seq_total_push(s1, fresh);
                            assert forall|p: int, q: int|
                                0 <= p < q < final(self).accounts@.len() implies final(self).accounts@[p].address@
                                != final(self).accounts@[q].address@ by {
                                if q == s1.len() {
                                    assert(final(self).accounts@[p].address@ != to@);
                                }
                            }
                        }
                        Ok(())
                    },
                }
            },
        }
    }

    /// The storage-creation primitive: store `record` at `address`,
    /// failing if the address is occupied. No balance moves.
    pub fn create_record(&mut self, address: &Address, record: TreasuryAccount) -> (r: Result<
        (),
        TreasuryError,
    >)
        requires
            old(self).wf(),
        ensures
            final(self).wf(),
            create_record_spec(*old(self), *address, record, *final(self), r),
    {
        match find_record_index(&self.records, address) {
            Some(_) => Err(TreasuryError::AlreadyInitialized),
            None => {
                let ghost r0 = self.records@;
                proof {
                    lemma_seq_record_at_none(r0, address@);
                }
                self.records.push(StoredRecord { address: *address, record });
                proof {
                    assert forall|p: int, q: int|
                        0 <= p < q < final(self).records@.len() implies final(self).records@[p].address@
                        != final(self).records@[q].address@ by {
                        if q == r0.len() {
                            assert(final(self).records@[p].address@ != address@);
                        }
                    }
                }
                Ok(())
            },
        }
    }

    /// The signed-transfer-with-derived-authority primitive: the debit
    /// address is not supplied but reconstructed from the authority's
    /// derivation seeds, so only a holder of those seeds can move value
    /// out of it.
    pub fn transfer_with_authority(
        &mut self,
        auth: &DerivedAuthority,
        to: &Address,
        amount: u64,
    ) -> (r: Result<(), TreasuryError>)
        requires
            old(self).wf(),
        ensures
            final(self).wf(),
            match salted_derivation(auth.label@, auth.owner@, auth.salt, old(self).program_id@) {
                Some(src) => transfer_spec(*old(self), src, to@, amount, *final(self), r),
                None => r == Err::<(), TreasuryError>(TreasuryError::TransferFailed) && *final(self)
                    == *old(self),
            },
    {
        let program = self.program_id;
        match derive_with_salt(auth.label.as_slice(), &auth.owner, auth.salt, &program) {
            None => Err(TreasuryError::TransferFailed),
            Some(src) => self.transfer(&src, to, amount),
        }
    }
}

} // verus!
