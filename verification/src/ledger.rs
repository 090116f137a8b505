//! The per-client account ledger: a state machine over deposits, withdrawals
//! and the dispute lifecycle of successfully withdrawn funds.
//!
//! Every transition is specified by `apply_spec` and proved to preserve the
//! account's well-formedness: the total balance fits in a `u64`, and the held
//! balance covers the amounts of all transactions whose dispute is ongoing,
//! which makes the debits of `Resolve` and `Chargeback` provably safe.
use std::collections::HashMap;
use vstd::prelude::*;

verus! {

broadcast use vstd::std_specs::hash::group_hash_axioms;

/// The five kinds of input transaction.
#[derive(Clone, Copy, PartialEq, Eq, Structural, Debug)]
pub enum TransactionType {
    Deposit,
    Withdrawal,
    Dispute,
    Resolve,
    Chargeback,
}

/// One parsed input row: kind, client id, transaction id, and a fixed-point
/// amount scaled by 10^4 (zero for the dispute-lifecycle kinds).
#[derive(Clone, Copy, PartialEq, Eq, Structural, Debug)]
pub struct TransactionRow {
    pub kind: TransactionType,
    pub client: u16,
    pub tx: u32,
    pub amount: u64,
}

/// How a finished dispute ended.
#[derive(Clone, Copy, PartialEq, Eq, Structural, Debug)]
pub enum Resolution {
    Resolve,
    Chargeback,
}

/// The dispute lifecycle of a held transaction.
#[derive(Clone, Copy, PartialEq, Eq, Structural, Debug)]
pub enum Dispute {
    Inactive,
    Ongoing,
    Done(Resolution),
}

/// A withdrawal that successfully debited the account, retained so that
/// later dispute events can refer to it. Never removed.
#[derive(Clone, Copy, PartialEq, Eq, Structural, Debug)]
pub struct Transaction {
    pub amount: u64,
    pub dispute: Dispute,
}

/// One client's account: balances, lock flag, and the held transactions
/// keyed by transaction id.
#[derive(Debug)]
pub struct Account {
    pub client: u16,
    pub available: u64,
    pub held: u64,
    pub locked: bool,
    pub transactions: HashMap<u32, Transaction>,
}

/// The mathematical state of an account.
#[verifier::ext_equal]
pub struct AccountView {
    pub client: u16,
    pub available: u64,
    pub held: u64,
    pub locked: bool,
    pub transactions: Map<u32, Transaction>,
}

impl View for Account {
    type V = AccountView;

    open spec fn view(&self) -> AccountView {
        AccountView {
            client: self.client,
            available: self.available,
            held: self.held,
            locked: self.locked,
            transactions: self.transactions@,
        }
    }
}

/// What a held transaction contributes to the held balance: its amount while
/// its dispute is ongoing, nothing otherwise.
pub open spec fn disputed_amount(t: Transaction) -> int {
    if t.dispute is Ongoing {
        t.amount as int
    } else {
        0
    }
}

/// The sum of the amounts of all held transactions whose dispute is ongoing.
pub open spec fn ongoing_sum(m: Map<u32, Transaction>) -> int
    decreases m.dom().len(),
    when m.dom().finite()
    via ongoing_sum_decreases
{
    if m.dom().finite() && m.dom().len() > 0 {
        let k = m.dom().choose();
        disputed_amount(m[k]) + ongoing_sum(m.remove(k))
    } else {
        0
    }
}

#[via_fn]
proof fn ongoing_sum_decreases(m: Map<u32, Transaction>) {
    if m.dom().finite() && m.dom().len() > 0 {
        let k = m.dom().choose();
        assert(m.dom().contains(k));
        assert(m.remove(k).dom().len() < m.dom().len());
    }
}

pub proof fn lemma_ongoing_sum_nonneg(m: Map<u32, Transaction>)
    requires
        m.dom().finite(),
    ensures
        ongoing_sum(m) >= 0,
    decreases m.dom().len(),
{
    if m.dom().len() > 0 {
        let k = m.dom().choose();
        assert(m.dom().contains(k));
        lemma_ongoing_sum_nonneg(m.remove(k));
    }
}

/// Splitting the ongoing sum at any present key.
pub proof fn lemma_ongoing_sum_decompose(m: Map<u32, Transaction>, k: u32)
    requires
        m.dom().finite(),
        m.dom().contains(k),
    ensures
        ongoing_sum(m) == disputed_amount(m[k]) + ongoing_sum(m.remove(k)),
    decreases m.dom().len(),
{
    assert(m.dom().len() > 0);
    let k0 = m.dom().choose();
    assert(m.dom().contains(k0));
    if k0 != k {
        lemma_ongoing_sum_decompose(m.remove(k0), k);
        lemma_ongoing_sum_decompose(m.remove(k), k0);
        assert(m.remove(k0).remove(k) =~= m.remove(k).remove(k0));
        assert(m.remove(k0)[k] == m[k]);
        assert(m.remove(k)[k0] == m[k0]);
    }
}

/// How an insertion changes the ongoing sum.
pub proof fn lemma_ongoing_sum_insert(m: Map<u32, Transaction>, k: u32, v: Transaction)
    requires
        m.dom().finite(),
    ensures
        ongoing_sum(m.insert(k, v)) == ongoing_sum(m) + disputed_amount(v) - (
        if m.dom().contains(k) {
            disputed_amount(m[k])
        } else {
            0
        }),
{
    let m2 = m.insert(k, v);
    assert(m2.dom().finite());
    assert(m2.dom().contains(k));
    lemma_ongoing_sum_decompose(m2, k);
    if m.dom().contains(k) {
        lemma_ongoing_sum_decompose(m, k);
        assert(m2.remove(k) =~= m.remove(k));
    } else {
        assert(m2.remove(k) =~= m);
    }
}

impl AccountView {
    /// The account's total balance.
    pub open spec fn total(self) -> int {
        self.available + self.held
    }

    /// Well-formedness: the total fits in a `u64`, and the held balance
    /// covers every ongoing dispute.
    pub open spec fn wf(self) -> bool {
        &&& self.transactions.dom().finite()
        &&& self.available + self.held <= u64::MAX
        &&& ongoing_sum(self.transactions) <= self.held
    }
}

/// The state of a freshly created account.
pub open spec fn new_account(client: u16) -> AccountView {
    AccountView {
        client: client,
        available: 0,
        held: 0,
        locked: false,
        transactions: Map::empty(),
    }
}

/// Deposit: credit the available balance. Ignored when the new total would
/// not fit in a `u64`.
pub open spec fn spec_deposit(a: AccountView, amount: u64) -> AccountView {
    if a.available + amount + a.held <= u64::MAX {
        AccountView { available: (a.available + amount) as u64, ..a }
    } else {
        a
    }
}

/// Withdrawal: succeeds only when the amount is strictly below the available
/// balance; on success it debits the account and records a held transaction
/// with no dispute. Otherwise the account is unchanged.
pub open spec fn spec_withdrawal(a: AccountView, tx: u32, amount: u64) -> AccountView {
    if amount < a.available {
        AccountView {
            available: (a.available - amount) as u64,
            transactions: a.transactions.insert(
                tx,
                Transaction { amount: amount, dispute: Dispute::Inactive },
            ),
            ..a
        }
    } else {
        a
    }
}

/// Dispute: when the transaction id is known, mark its dispute ongoing if it
/// had none, and add its amount to the held balance; every repetition adds
/// again. Unknown ids are ignored, as is a dispute whose new total would not
/// fit in a `u64`.
pub open spec fn spec_dispute(a: AccountView, tx: u32) -> AccountView {
    if a.transactions.dom().contains(tx) {
        let e = a.transactions[tx];
        if a.available + a.held + e.amount <= u64::MAX {
            AccountView {
                held: (a.held + e.amount) as u64,
                transactions: if e.dispute is Inactive {
                    a.transactions.insert(
                        tx,
                        Transaction { amount: e.amount, dispute: Dispute::Ongoing },
                    )
                } else {
                    a.transactions
                },
                ..a
            }
        } else {
            a
        }
    } else {
        a
    }
}

/// Resolve: only a transaction whose dispute is exactly ongoing moves its
/// amount from held back to available and finishes the dispute.
pub open spec fn spec_resolve(a: AccountView, tx: u32) -> AccountView {
    if a.transactions.dom().contains(tx) && a.transactions[tx].dispute is Ongoing {
        let e = a.transactions[tx];
        AccountView {
            available: (a.available + e.amount) as u64,
            held: (a.held - e.amount) as u64,
            transactions: a.transactions.insert(
                tx,
                Transaction { amount: e.amount, dispute: Dispute::Done(Resolution::Resolve) },
            ),
            ..a
        }
    } else {
        a
    }
}

/// Chargeback: only a transaction whose dispute is exactly ongoing removes
/// its amount from held and locks the account for good.
pub open spec fn spec_chargeback(a: AccountView, tx: u32) -> AccountView {
    if a.transactions.dom().contains(tx) && a.transactions[tx].dispute is Ongoing {
        let e = a.transactions[tx];
        AccountView {
            held: (a.held - e.amount) as u64,
            locked: true,
            transactions: a.transactions.insert(
                tx,
                Transaction { amount: e.amount, dispute: Dispute::Done(Resolution::Chargeback) },
            ),
            ..a
        }
    } else {
        a
    }
}

/// One step of the account state machine: a locked account ignores every
/// transaction; otherwise dispatch on the transaction kind.
pub open spec fn apply_spec(a: AccountView, t: TransactionRow) -> AccountView {
    if a.locked {
        a
    } else {
        match t.kind {
            TransactionType::Deposit => spec_deposit(a, t.amount),
            TransactionType::Withdrawal => spec_withdrawal(a, t.tx, t.amount),
            TransactionType::Dispute => spec_dispute(a, t.tx),
            TransactionType::Resolve => spec_resolve(a, t.tx),
            TransactionType::Chargeback => spec_chargeback(a, t.tx),
        }
    }
}

/// Folding a whole sequence of transactions over an account, left to right.
pub open spec fn apply_seq(a: AccountView, ts: Seq<TransactionRow>) -> AccountView
    decreases ts.len(),
{
    if ts.len() == 0 {
        a
    } else {
        apply_spec(apply_seq(a, ts.drop_last()), ts.last())
    }
}

pub proof fn lemma_deposit_wf(a: AccountView, amount: u64)
    requires
        a.wf(),
    ensures
        spec_deposit(a, amount).wf(),
{
}

pub proof fn lemma_withdrawal_wf(a: AccountView, tx: u32, amount: u64)
    requires
        a.wf(),
    ensures
        spec_withdrawal(a, tx, amount).wf(),
{
    if amount < a.available {
        lemma_ongoing_sum_insert(
            a.transactions,
            tx,
            Transaction { amount: amount, dispute: Dispute::Inactive },
        );
    }
}

pub proof fn lemma_dispute_wf(a: AccountView, tx: u32)
    requires
        a.wf(),
    ensures
        spec_dispute(a, tx).wf(),
{
    if a.transactions.dom().contains(tx) {
        let e = a.transactions[tx];
        if a.available + a.held + e.amount <= u64::MAX && e.dispute is Inactive {
            lemma_ongoing_sum_insert(
                a.transactions,
                tx,
                Transaction { amount: e.amount, dispute: Dispute::Ongoing },
            );
        }
    }
}

/// For a transaction under ongoing dispute, the held balance covers its
/// amount; this is what makes the debits of resolve and chargeback safe.
pub proof fn lemma_ongoing_covered(a: AccountView, tx: u32)
    requires
        a.wf(),
        a.transactions.dom().contains(tx),
        a.transactions[tx].dispute is Ongoing,
    ensures
        a.transactions[tx].amount <= a.held,
{
    lemma_ongoing_sum_decompose(a.transactions, tx);
    lemma_ongoing_sum_nonneg(a.transactions.remove(tx));
}

pub proof fn lemma_resolve_wf(a: AccountView, tx: u32)
    requires
        a.wf(),
    ensures
        spec_resolve(a, tx).wf(),
{
    if a.transactions.dom().contains(tx) && a.transactions[tx].dispute is Ongoing {
        let e = a.transactions[tx];
        lemma_ongoing_covered(a, tx);
        lemma_ongoing_sum_decompose(a.transactions, tx);
        lemma_ongoing_sum_insert(
            a.transactions,
            tx,
            Transaction { amount: e.amount, dispute: Dispute::Done(Resolution::Resolve) },
        );
    }
}

pub proof fn lemma_chargeback_wf(a: AccountView, tx: u32)
    requires
        a.wf(),
    ensures
        spec_chargeback(a, tx).wf(),
{
    if a.transactions.dom().contains(tx) && a.transactions[tx].dispute is Ongoing {
        let e = a.transactions[tx];
        lemma_ongoing_covered(a, tx);
        lemma_ongoing_sum_decompose(a.transactions, tx);
        lemma_ongoing_sum_insert(
            a.transactions,
            tx,
            Transaction { amount: e.amount, dispute: Dispute::Done(Resolution::Chargeback) },
        );
    }
}

/// Every transition preserves well-formedness; in particular the total
/// balance and the held balance never leave the representable range.
pub proof fn lemma_wf_preserved(a: AccountView, t: TransactionRow)
    requires
        a.wf(),
    ensures
        apply_spec(a, t).wf(),
{
    if !a.locked {
        match t.kind {
            TransactionType::Deposit => lemma_deposit_wf(a, t.amount),
            TransactionType::Withdrawal => lemma_withdrawal_wf(a, t.tx, t.amount),
            TransactionType::Dispute => lemma_dispute_wf(a, t.tx),
            TransactionType::Resolve => lemma_resolve_wf(a, t.tx),
            TransactionType::Chargeback => lemma_chargeback_wf(a, t.tx),
        }
    }
}

impl Account {
    /// A fresh, unlocked account with empty balances and no held
    /// transactions.
    pub fn new(client: u16) -> (a: Account)
        ensures
            a@ == new_account(client),
            a@.wf(),
    {
        let a = Account {
            client: client,
            available: 0,
            held: 0,
            locked: false,
            transactions: HashMap::new(),
        };
        proof {
            assert(a@.transactions =~= Map::<u32, Transaction>::empty());
            assert(a@ =~= new_account(client));
            assert(a@.transactions.dom() =~= Set::<u32>::empty());
        }
        a
    }

    /// Credit a deposit, unless the new total would overflow.
    fn process_deposit(&mut self, t: &TransactionRow)
        requires
            old(self)@.wf(),
        ensures
            final(self)@ == spec_deposit(old(self)@, t.amount),
            final(self)@.wf(),
    {
        proof {
            lemma_deposit_wf(self@, t.amount);
        }
        if t.amount <= u64::MAX - self.available - self.held {
            self.available = self.available + t.amount;
        }
        proof {
            assert(self@ =~= spec_deposit(old(self)@, t.amount));
        }
    }

    /// Debit a withdrawal when strictly covered by the available balance and
    /// record it as a held transaction; otherwise do nothing.
    fn process_withdrawal(&mut self, t: &TransactionRow)
        requires
            old(self)@.wf(),
        ensures
            final(self)@ == spec_withdrawal(old(self)@, t.tx, t.amount),
            final(self)@.wf(),
    {
        proof {
            lemma_withdrawal_wf(self@, t.tx, t.amount);
        }
        if self.available > t.amount {
            self.available = self.available - t.amount;
            self.transactions.insert(
                t.tx,
                Transaction { amount: t.amount, dispute: Dispute::Inactive },
            );
        }
        proof {
            assert(self@ =~= spec_withdrawal(old(self)@, t.tx, t.amount));
        }
    }

    /// Apply a dispute to a known transaction: flag it ongoing if it was not
    /// disputed yet, and add its amount to the held balance.
    fn process_dispute(&mut self, t: &TransactionRow)
        requires
            old(self)@.wf(),
        ensures
            final(self)@ == spec_dispute(old(self)@, t.tx),
            final(self)@.wf(),
    {
        proof {
            lemma_dispute_wf(self@, t.tx);
        }
        let entry = match self.transactions.get(&t.tx) {
            Some(e) => *e,
            None => {
                proof {
                    assert(self@ =~= spec_dispute(old(self)@, t.tx));
                }
                return ;
            },
        };
        if entry.amount <= u64::MAX - self.available - self.held {
            if matches!(entry.dispute, Dispute::Inactive) {
                self.transactions.insert(
                    t.tx,
                    Transaction { amount: entry.amount, dispute: Dispute::Ongoing },
                );
            }
            self.held = self.held + entry.amount;
        }
        proof {
            assert(self@ =~= spec_dispute(old(self)@, t.tx));
        }
    }

    /// Resolve an ongoing dispute: move the amount from held back to
    /// available and finish the dispute.
    fn process_resolve(&mut self, t: &TransactionRow)
        requires
            old(self)@.wf(),
        ensures
            final(self)@ == spec_resolve(old(self)@, t.tx),
            final(self)@.wf(),
    {
        proof {
            lemma_resolve_wf(self@, t.tx);
        }
        let entry = match self.transactions.get(&t.tx) {
            Some(e) => *e,
            None => {
                proof {
                    assert(self@ =~= spec_resolve(old(self)@, t.tx));
                }
                return ;
            },
        };
        if matches!(entry.dispute, Dispute::Ongoing) {
            proof {
                lemma_ongoing_covered(old(self)@, t.tx);
            }
            self.transactions.insert(
                t.tx,
                Transaction { amount: entry.amount, dispute: Dispute::Done(Resolution::Resolve) },
            );
            self.held = self.held - entry.amount;
            self.available = self.available + entry.amount;
        }
        proof {
            assert(self@ =~= spec_resolve(old(self)@, t.tx));
        }
    }

    /// Charge back an ongoing dispute: forfeit the held amount and lock the
    /// account permanently.
    fn process_chargeback(&mut self, t: &TransactionRow)
        requires
            old(self)@.wf(),
        ensures
            final(self)@ == spec_chargeback(old(self)@, t.tx),
            final(self)@.wf(),
    {
        proof {
            lemma_chargeback_wf(self@, t.tx);
        }
        let entry = match self.transactions.get(&t.tx) {
            Some(e) => *e,
            None => {
                proof {
                    assert(self@ =~= spec_chargeback(old(self)@, t.tx));
                }
                return ;
            },
        };
        if matches!(entry.dispute, Dispute::Ongoing) {
            proof {
                lemma_ongoing_covered(old(self)@, t.tx);
            }
            self.transactions.insert(
                t.tx,
                Transaction {
                    amount: entry.amount,
                    dispute: Dispute::Done(Resolution::Chargeback),
                },
            );
            self.held = self.held - entry.amount;
            self.locked = true;
        }
        proof {
            assert(self@ =~= spec_chargeback(old(self)@, t.tx));
        }
    }

    /// Apply one transaction to this account: locked accounts ignore
    /// everything, otherwise dispatch on the transaction kind.
    pub fn process_transaction(&mut self, t: &TransactionRow)
        requires
            old(self)@.wf(),
        ensures
            final(self)@ == apply_spec(old(self)@, *t),
            final(self)@.wf(),
    {
        if !self.locked {
            match t.kind {
                TransactionType::Deposit => self.process_deposit(t),
                TransactionType::Withdrawal => self.process_withdrawal(t),
                TransactionType::Dispute => self.process_dispute(t),
                TransactionType::Resolve => self.process_resolve(t),
                TransactionType::Chargeback => self.process_chargeback(t),
            }
        }
    }
}

/// The balance invariant, over every reachable account state: starting
/// fresh, any sequence of transactions leaves the account well formed, and
/// its reported total is exactly available plus held: both non-negative
/// and in range.
pub proof fn lemma_total_invariant(client: u16, ts: Seq<TransactionRow>)
    ensures
        apply_seq(new_account(client), ts).wf(),
        output_of(apply_seq(new_account(client), ts)).total == apply_seq(
            new_account(client),
            ts,
        ).available + apply_seq(new_account(client), ts).held,
    decreases ts.len(),
{
    if ts.len() == 0 {
        assert(new_account(client).transactions.dom() =~= Set::<u32>::empty());
        assert(ongoing_sum(new_account(client).transactions) == 0);
    } else {
        lemma_total_invariant(client, ts.drop_last());
        lemma_wf_preserved(apply_seq(new_account(client), ts.drop_last()), ts.last());
    }
}

/// A locked account ignores a transaction of any kind: nothing about it
/// changes.
pub proof fn lemma_locked_frozen(a: AccountView, t: TransactionRow)
    requires
        a.locked,
    ensures
        apply_spec(a, t) == a,
{
}

/// Locking is monotonic: once an account is locked, no sequence of further
/// transactions changes its balances, its lock, or its transaction history.
pub proof fn lemma_locked_frozen_seq(a: AccountView, ts: Seq<TransactionRow>)
    requires
        a.locked,
    ensures
        apply_seq(a, ts) == a,
    decreases ts.len(),
{
    if ts.len() > 0 {
        lemma_locked_frozen_seq(a, ts.drop_last());
        lemma_locked_frozen(a, ts.last());
    }
}

/// The withdrawal boundary: an amount equal to or above the available
/// balance is rejected without any mutation; an amount strictly below it
/// debits the account and records the held transaction.
pub proof fn lemma_withdrawal_boundary(a: AccountView, tx: u32, amount: u64)
    ensures
        amount >= a.available ==> spec_withdrawal(a, tx, amount) == a,
        amount < a.available ==> {
            &&& spec_withdrawal(a, tx, amount).available == a.available - amount
            &&& spec_withdrawal(a, tx, amount).held == a.held
            &&& spec_withdrawal(a, tx, amount).locked == a.locked
            &&& spec_withdrawal(a, tx, amount).client == a.client
            &&& spec_withdrawal(a, tx, amount).transactions == a.transactions.insert(
                tx,
                Transaction { amount: amount, dispute: Dispute::Inactive },
            )
        },
{
}

/// Dispute, resolve and chargeback refer to an earlier successful
/// withdrawal; a transaction id with no held transaction is a no-op.
pub proof fn lemma_unknown_tx_noop(a: AccountView, t: TransactionRow)
    requires
        !a.transactions.dom().contains(t.tx),
        t.kind is Dispute || t.kind is Resolve || t.kind is Chargeback,
    ensures
        apply_spec(a, t) == a,
{
}

/// The same, handler by handler: each of the three dispute-lifecycle
/// handlers leaves an account entirely unchanged when the transaction id
/// has no held transaction.
pub proof fn lemma_unknown_tx_handlers_noop(a: AccountView, tx: u32)
    requires
        !a.transactions.dom().contains(tx),
    ensures
        spec_dispute(a, tx) == a,
        spec_resolve(a, tx) == a,
        spec_chargeback(a, tx) == a,
{
}

/// Resolve and chargeback act only while the dispute is exactly ongoing:
/// on a transaction whose dispute is not yet opened, or already done, each
/// handler leaves the account entirely unchanged; in particular a
/// chargeback that does not act never sets the lock.
pub proof fn lemma_not_ongoing_handlers_noop(a: AccountView, tx: u32)
    requires
        a.transactions.dom().contains(tx),
        !(a.transactions[tx].dispute is Ongoing),
    ensures
        spec_resolve(a, tx) == a,
        spec_chargeback(a, tx) == a,
{
}

/// Held transactions come from successful withdrawals alone: any other
/// transaction leaves the set of known transaction ids as it is.
pub proof fn lemma_history_from_withdrawals(a: AccountView, t: TransactionRow)
    requires
        !(t.kind is Withdrawal && t.amount < a.available && !a.locked),
    ensures
        apply_spec(a, t).transactions.dom() =~= a.transactions.dom(),
{
}

/// Resolve and chargeback act only on a dispute that is exactly ongoing;
/// in particular repeating either after the dispute is done is a no-op.
pub proof fn lemma_done_is_final(a: AccountView, t: TransactionRow)
    requires
        t.kind is Resolve || t.kind is Chargeback,
        a.transactions.dom().contains(t.tx),
        !(a.transactions[t.tx].dispute is Ongoing),
    ensures
        apply_spec(a, t) == a,
{
}

/// The output row derived from an account: its balances, their total, and
/// the lock flag.
#[derive(Clone, Copy, PartialEq, Eq, Structural, Debug)]
pub struct OutputAccount {
    pub client: u16,
    pub available: u64,
    pub held: u64,
    pub total: u64,
    pub locked: bool,
}

/// The projection of an account state to its output row.
pub open spec fn output_of(a: AccountView) -> OutputAccount {
    OutputAccount {
        client: a.client,
        available: a.available,
        held: a.held,
        total: (a.available + a.held) as u64,
        locked: a.locked,
    }
}

impl OutputAccount {
    /// Project an account to its output row; well-formedness guarantees
    /// that the total, the sum of available and held, fits in a `u64`.
    pub fn from_account(account: &Account) -> (r: OutputAccount)
        requires
            account@.wf(),
        ensures
            r == output_of(account@),
            r.total == account@.available + account@.held,
    {
        OutputAccount {
            client: account.client,
            available: account.available,
            held: account.held,
            total: account.available + account.held,
            locked: account.locked,
        }
    }
}

} // verus!
