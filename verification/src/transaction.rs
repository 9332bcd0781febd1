//! The transaction state machine: one transition rule per event kind.
//!
//! Each rule takes the addressed account and either mutates it or leaves it
//! untouched. Deposits and withdrawals are economic actions and can fail;
//! dispute, resolve and chargeback are references to a prior deposit, and a
//! reference to an unknown or already-concluded transaction is a silent
//! no-op.

use vstd::prelude::*;

use crate::account_state::AccountState;
use crate::account_state::AccountView;
use crate::ClientId;
use crate::TxId;

verus! {

/// The two ways a deposit or withdrawal can be malformed. Dispute-family
/// mismatches are deliberately not errors.
#[derive(Debug, Clone, Copy, PartialEq, Eq, Structural)]
pub enum TxError {
    /// A withdrawal asked for more than the available funds.
    NotEnoughAvailableFunds,
    /// A deposit or withdrawal arrived without a monetary amount.
    AmountMandatory,
}

/// The closed set of event kinds; no others exist.
#[derive(Debug, Clone, Copy, PartialEq, Eq, Structural)]
pub enum TxKind {
    Deposit,
    Dispute,
    Withdraw,
    Resolve,
    Chargeback,
}

/// One incoming movement record, as handed in by the surrounding reader:
/// an event kind, the addressed client, the transaction identifier, and,
/// for deposits and withdrawals, the fixed-point amount.
#[derive(Debug, Clone, Copy)]
pub struct Record {
    pub kind: TxKind,
    pub client: ClientId,
    pub tx: TxId,
    pub amount: Option<i64>,
}

/// A credit to the client's account.
#[derive(Debug, Clone, Copy)]
pub struct Deposit {
    pub id: TxId,
    pub amount: i64,
}

/// A debit of available funds.
#[derive(Debug, Clone, Copy)]
pub struct Withdrawal {
    pub amount: i64,
}

/// A claim that the deposit `id` was erroneous; freezes its amount.
#[derive(Debug, Clone, Copy)]
pub struct Dispute {
    pub id: TxId,
}

/// The conclusion of a dispute in the client's favor: funds unfrozen.
#[derive(Debug, Clone, Copy)]
pub struct Resolve {
    pub id: TxId,
}

/// The conclusion of a dispute that removes the funds and locks the account.
#[derive(Debug, Clone, Copy)]
pub struct Chargeback {
    pub id: TxId,
}

/// The account after a deposit of `amount` under transaction `tx`:
/// available and total grow by the amount, and the deposit is recorded so
/// that it can be disputed later.
pub open spec fn deposit_step(a: AccountView, tx: TxId, amount: int) -> AccountView {
    AccountView {
        available: a.available + amount,
        total: a.total + amount,
        hist: a.hist.insert(tx, amount),
        ..a
    }
}

/// The account after a successful withdrawal: available and total shrink by
/// the amount. Withdrawals leave no history entry and can never be disputed.
pub open spec fn withdrawal_step(a: AccountView, amount: int) -> AccountView {
    AccountView { available: a.available - amount, total: a.total - amount, ..a }
}

/// The account after a dispute of `tx`: if that deposit is on record, its
/// amount moves from available to held and the dispute is opened; otherwise
/// the account is unchanged.
pub open spec fn dispute_step(a: AccountView, tx: TxId) -> AccountView {
    if a.hist.contains_key(tx) {
        let amt = a.hist[tx];
        AccountView {
            available: a.available - amt,
            held: a.held + amt,
            disputed: a.disputed.insert(tx),
            ..a
        }
    } else {
        a
    }
}

/// The account after a resolve of `tx`: if `tx` is under open dispute, its
/// amount moves back from held to available and the dispute concludes, so
/// `tx` leaves both the dispute set and the history; otherwise the account
/// is unchanged.
pub open spec fn resolve_step(a: AccountView, tx: TxId) -> AccountView {
    if a.disputed.contains(tx) && a.hist.contains_key(tx) {
        let amt = a.hist[tx];
        AccountView {
            available: a.available + amt,
            held: a.held - amt,
            hist: a.hist.remove(tx),
            disputed: a.disputed.remove(tx),
            ..a
        }
    } else {
        a
    }
}

/// The account after a chargeback of `tx`: if `tx` is under open dispute,
/// its amount is withdrawn from held and total, the account is permanently
/// locked, and the dispute concludes; otherwise the account is unchanged.
pub open spec fn chargeback_step(a: AccountView, tx: TxId) -> AccountView {
    if a.disputed.contains(tx) && a.hist.contains_key(tx) {
        let amt = a.hist[tx];
        AccountView {
            held: a.held - amt,
            total: a.total - amt,
            locked: true,
            hist: a.hist.remove(tx),
            disputed: a.disputed.remove(tx),
            ..a
        }
    } else {
        a
    }
}

/// What creating a transaction from a raw record yields: deposits and
/// withdrawals demand an amount, the dispute family ignores it.
pub open spec fn create_spec(kind: TxKind, id: TxId, amount: Option<i64>) -> Result<
    Transaction,
    TxError,
> {
    match kind {
        TxKind::Deposit => match amount {
            Some(a) => Ok(Transaction::Deposit(Deposit { id: id, amount: a })),
            None => Err(TxError::AmountMandatory),
        },
        TxKind::Withdraw => match amount {
            Some(a) => Ok(Transaction::Withdrawal(Withdrawal { amount: a })),
            None => Err(TxError::AmountMandatory),
        },
        TxKind::Dispute => Ok(Transaction::Dispute(Dispute { id: id })),
        TxKind::Resolve => Ok(Transaction::Resolve(Resolve { id: id })),
        TxKind::Chargeback => Ok(Transaction::Chargeback(Chargeback { id: id })),
    }
}

/// The rule table in one place: the account a created transaction leaves
/// behind, or the error that aborts the run. Only a withdrawal beyond the
/// available funds fails here.
pub open spec fn trans_step(a: AccountView, t: Transaction) -> Result<AccountView, TxError> {
    match t {
        Transaction::Deposit(d) => Ok(deposit_step(a, d.id, d.amount as int)),
        Transaction::Withdrawal(w) => if a.available < w.amount as int {
            Err(TxError::NotEnoughAvailableFunds)
        } else {
            Ok(withdrawal_step(a, w.amount as int))
        },
        Transaction::Dispute(d) => Ok(dispute_step(a, d.id)),
        Transaction::Resolve(r) => Ok(resolve_step(a, r.id)),
        Transaction::Chargeback(c) => Ok(chargeback_step(a, c.id)),
    }
}

/// One whole record applied to one account: creation followed by the rule
/// for its kind.
pub open spec fn tx_step(a: AccountView, r: Record) -> Result<AccountView, TxError> {
    match create_spec(r.kind, r.tx, r.amount) {
        Ok(t) => trans_step(a, t),
        Err(e) => Err(e),
    }
}

/// Whether `x` fits the balances' carrier type.
pub open spec fn in_balance_range(x: int) -> bool {
    i128::MIN <= x <= i128::MAX
}

/// The arithmetic that applying `r` to `a` would perform stays within the
/// balances' carrier type.
pub open spec fn tx_fits(a: AccountView, r: Record) -> bool {
    match r.kind {
        TxKind::Deposit => r.amount matches Some(amt) ==> in_balance_range(a.available + amt)
            && in_balance_range(a.total + amt),
        TxKind::Withdraw => r.amount matches Some(amt) ==> (a.available >= amt ==> in_balance_range(
            a.available - amt,
        ) && in_balance_range(a.total - amt)),
        TxKind::Dispute => a.hist.contains_key(r.tx) ==> in_balance_range(
            a.available - a.hist[r.tx],
        ) && in_balance_range(a.held + a.hist[r.tx]),
        TxKind::Resolve => a.disputed.contains(r.tx) && a.hist.contains_key(r.tx)
            ==> in_balance_range(a.available + a.hist[r.tx]) && in_balance_range(
            a.held - a.hist[r.tx],
        ),
        TxKind::Chargeback => a.disputed.contains(r.tx) && a.hist.contains_key(r.tx)
            ==> in_balance_range(a.total - a.hist[r.tx]) && in_balance_range(
            a.held - a.hist[r.tx],
        ),
    }
}

impl Deposit {
    /// Builds a deposit; the amount is mandatory.
    pub fn create(id: TxId, amount: Option<i64>) -> (r: Result<Deposit, TxError>)
        ensures
            amount matches Some(a) ==> r == Ok::<Deposit, TxError>((Deposit {
                id: id,
                amount: a,
            })),
            amount is None ==> r == Err::<Deposit, TxError>(TxError::AmountMandatory),
    {
        match amount {
            Some(a) => Ok(Deposit { id, amount: a }),
            None => Err(TxError::AmountMandatory),
        }
    }

    /// Credits the account: available and total grow by the amount, and the
    /// deposit enters the history of disputable transactions.
    pub fn apply(self, acc: &mut AccountState) -> (r: Result<(), TxError>)
        requires
            in_balance_range(old(acc)@.available + self.amount),
            in_balance_range(old(acc)@.total + self.amount),
        ensures
            r == Ok::<(), TxError>(()),
            final(acc)@ == deposit_step(old(acc)@, self.id, self.amount as int),
    {
        acc.available = acc.available + self.amount as i128;
        acc.total = acc.total + self.amount as i128;
        let id = self.id;
        let amount = self.amount;
        acc.register_deposit(id, self);
        proof {
            assert(acc@ =~= deposit_step(old(acc)@, id, amount as int));
        }
        Ok(())
    }
}

impl Withdrawal {
    /// Builds a withdrawal; the amount is mandatory, the transaction
    /// identifier is not retained (withdrawals cannot be disputed).
    pub fn create(_id: TxId, amount: Option<i64>) -> (r: Result<Withdrawal, TxError>)
        ensures
            amount matches Some(a) ==> r == Ok::<Withdrawal, TxError>((Withdrawal { amount: a })),
            amount is None ==> r == Err::<Withdrawal, TxError>(TxError::AmountMandatory),
    {
        match amount {
            Some(a) => Ok(Withdrawal { amount: a }),
            None => Err(TxError::AmountMandatory),
        }
    }

    /// Debits the account if the available funds suffice; otherwise fails
    /// and leaves every field exactly as it was.
    pub fn apply(self, acc: &mut AccountState) -> (r: Result<(), TxError>)
        requires
            old(acc)@.available >= self.amount ==> in_balance_range(
                old(acc)@.available - self.amount,
            ) && in_balance_range(old(acc)@.total - self.amount),
        ensures
            old(acc)@.available < self.amount ==> r == Err::<(), TxError>(
                TxError::NotEnoughAvailableFunds,
            ) && final(acc)@ == old(acc)@,
            old(acc)@.available >= self.amount ==> r == Ok::<(), TxError>(()) && final(acc)@
                == withdrawal_step(old(acc)@, self.amount as int),
    {
        if acc.available < self.amount as i128 {
            Err(TxError::NotEnoughAvailableFunds)
        } else {
            acc.available = acc.available - self.amount as i128;
            acc.total = acc.total - self.amount as i128;
            proof {
                assert(acc@ =~= withdrawal_step(old(acc)@, self.amount as int));
            }
            Ok(())
        }
    }
}

impl Dispute {
    /// Builds a dispute; any amount on the record is ignored.
    pub fn create(id: TxId, _amount: Option<i64>) -> (r: Result<Dispute, TxError>)
        ensures
            r == Ok::<Dispute, TxError>((Dispute { id: id })),
    {
        Ok(Dispute { id })
    }

    /// Opens a dispute: if the referenced deposit is on record, its amount
    /// moves from available to held; an unknown reference is a silent no-op.
    pub fn apply(self, acc: &mut AccountState) -> (r: Result<(), TxError>)
        requires
            old(acc)@.hist.contains_key(self.id) ==> in_balance_range(
                old(acc)@.available - old(acc)@.hist[self.id],
            ) && in_balance_range(old(acc)@.held + old(acc)@.hist[self.id]),
        ensures
            r == Ok::<(), TxError>(()),
            final(acc)@ == dispute_step(old(acc)@, self.id),
    {
        let amt_found: Option<i64> = match acc.hist.get(&self.id) {
            Some(a) => Some(*a),
            None => None,
        };
        match amt_found {
            Some(amt) => {
                proof {
                    assert(acc@.hist.contains_key(self.id) && acc@.hist[self.id] == amt as int);
                }
                acc.available = acc.available - amt as i128;
                acc.held = acc.held + amt as i128;
                acc.register_dispute(self.id);
                proof {
                    assert(acc@ =~= dispute_step(old(acc)@, self.id));
                }
            },
            None => {
                proof {
                    assert(!acc@.hist.contains_key(self.id));
                    assert(acc@ =~= dispute_step(old(acc)@, self.id));
                }
            },
        }
        Ok(())
    }
}

impl Resolve {
    /// Builds a resolve; any amount on the record is ignored.
    pub fn create(id: TxId, _amount: Option<i64>) -> (r: Result<Resolve, TxError>)
        ensures
            r == Ok::<Resolve, TxError>((Resolve { id: id })),
    {
        Ok(Resolve { id })
    }

    /// Concludes a dispute in the client's favor: the held amount returns
    /// to available and the transaction leaves history and dispute set. A
    /// reference to a transaction not under dispute is a silent no-op.
    pub fn apply(self, acc: &mut AccountState) -> (r: Result<(), TxError>)
        requires
            old(acc)@.disputed.contains(self.id) && old(acc)@.hist.contains_key(self.id)
                ==> in_balance_range(old(acc)@.available + old(acc)@.hist[self.id])
                && in_balance_range(old(acc)@.held - old(acc)@.hist[self.id]),
        ensures
            r == Ok::<(), TxError>(()),
            final(acc)@ == resolve_step(old(acc)@, self.id),
    {
        if acc.disputed_tx.contains(&self.id) {
            let amt_found: Option<i64> = match acc.hist.get(&self.id) {
                Some(a) => Some(*a),
                None => None,
            };
            match amt_found {
                Some(amt) => {
                    proof {
                        assert(acc@.hist.contains_key(self.id) && acc@.hist[self.id] == amt as int);
                    }
                    acc.available = acc.available + amt as i128;
                    acc.held = acc.held - amt as i128;
                    acc.unregister_dispute(self.id);
                    proof {
                        assert(acc@ =~= resolve_step(old(acc)@, self.id));
                    }
                },
                None => {
                    proof {
                        assert(acc@ =~= resolve_step(old(acc)@, self.id));
                    }
                },
            }
        } else {
            proof {
                assert(acc@ =~= resolve_step(old(acc)@, self.id));
            }
        }
        Ok(())
    }
}

impl Chargeback {
    /// Builds a chargeback; any amount on the record is ignored.
    pub fn create(id: TxId, _amount: Option<i64>) -> (r: Result<Chargeback, TxError>)
        ensures
            r == Ok::<Chargeback, TxError>((Chargeback { id: id })),
    {
        Ok(Chargeback { id })
    }

    /// Concludes a dispute against the client: the held amount is withdrawn
    /// from held and total, and the account is permanently locked. A
    /// reference to a transaction not under dispute is a silent no-op.
    pub fn apply(self, acc: &mut AccountState) -> (r: Result<(), TxError>)
        requires
            old(acc)@.disputed.contains(self.id) && old(acc)@.hist.contains_key(self.id)
                ==> in_balance_range(old(acc)@.total - old(acc)@.hist[self.id])
                && in_balance_range(old(acc)@.held - old(acc)@.hist[self.id]),
        ensures
            r == Ok::<(), TxError>(()),
            final(acc)@ == chargeback_step(old(acc)@, self.id),
    {
        if acc.disputed_tx.contains(&self.id) {
            let amt_found: Option<i64> = match acc.hist.get(&self.id) {
                Some(a) => Some(*a),
                None => None,
            };
            match amt_found {
                Some(amt) => {
                    proof {
                        assert(acc@.hist.contains_key(self.id) && acc@.hist[self.id] == amt as int);
                    }
                    acc.locked = true;
                    acc.total = acc.total - amt as i128;
                    acc.held = acc.held - amt as i128;
                    acc.unregister_dispute(self.id);
                    proof {
                        assert(acc@ =~= chargeback_step(old(acc)@, self.id));
                    }
                },
                None => {
                    proof {
                        assert(acc@ =~= chargeback_step(old(acc)@, self.id));
                    }
                },
            }
        } else {
            proof {
                assert(acc@ =~= chargeback_step(old(acc)@, self.id));
            }
        }
        Ok(())
    }
}

/// Applying any record to a well-formed account yields a well-formed
/// account for the same client: in particular the balance invariant
/// `total == available + held` holds again after every successful step.
pub proof fn lemma_tx_step_preserves_wf(a: AccountView, r: Record)
    requires
        a.wf(),
    ensures
        tx_step(a, r) matches Ok(a2) ==> a2.wf() && a2.client == a.client,
{
    match tx_step(a, r) {
        Ok(a2) => {
            assert forall|t: TxId| a2.disputed.contains(t) implies a2.hist.contains_key(t) by {
                assert(a.disputed.contains(t) ==> a.hist.contains_key(t));
            }
            assert forall|t: TxId| a2.hist.contains_key(t) implies i64::MIN <= #[trigger] a2.hist[t]
                <= i64::MAX by {
                if a.hist.contains_key(t) {
                    assert(i64::MIN <= a.hist[t] <= i64::MAX);
                }
            }
        },
        Err(_) => {
        },
    }
}

/// Resolving or charging back a transaction that is not currently under
/// dispute leaves the account exactly unchanged.
pub proof fn lemma_ignored_dispute_conclusions(a: AccountView, tx: TxId)
    requires
        !a.disputed.contains(tx),
    ensures
        resolve_step(a, tx) == a,
        chargeback_step(a, tx) == a,
{
}

/// Depositing an amount under a fresh transaction id, disputing it and then
/// resolving it restores the available funds to their value right after the
/// deposit, returns the held funds to their prior value, keeps the total at
/// its post-deposit value, and removes the transaction from the history, so
/// a second dispute of the same id is a no-op.
pub proof fn lemma_dispute_resolve_round_trip(a: AccountView, tx: TxId, amount: i64)
    ensures
        resolve_step(dispute_step(deposit_step(a, tx, amount as int), tx), tx).available
            == a.available + amount,
        resolve_step(dispute_step(deposit_step(a, tx, amount as int), tx), tx).held == a.held,
        resolve_step(dispute_step(deposit_step(a, tx, amount as int), tx), tx).total == a.total
            + amount,
        !resolve_step(dispute_step(deposit_step(a, tx, amount as int), tx), tx).hist.contains_key(
            tx,
        ),
        dispute_step(resolve_step(dispute_step(deposit_step(a, tx, amount as int), tx), tx), tx)
            == resolve_step(dispute_step(deposit_step(a, tx, amount as int), tx), tx),
        resolve_step(dispute_step(deposit_step(a, tx, amount as int), tx), tx).locked == a.locked,
{
}

/// Depositing an amount under a fresh transaction id, disputing it and then
/// charging it back removes the amount from held and total again, returns
/// every balance to its pre-deposit value, locks the account, and removes
/// the transaction from history and dispute set.
pub proof fn lemma_chargeback_freezes(a: AccountView, tx: TxId, amount: i64)
    ensures
        chargeback_step(dispute_step(deposit_step(a, tx, amount as int), tx), tx).available
            == a.available,
        chargeback_step(dispute_step(deposit_step(a, tx, amount as int), tx), tx).held == a.held,
        chargeback_step(dispute_step(deposit_step(a, tx, amount as int), tx), tx).total == a.total,
        chargeback_step(dispute_step(deposit_step(a, tx, amount as int), tx), tx).locked,
        !chargeback_step(dispute_step(deposit_step(a, tx, amount as int), tx), tx).hist
            .contains_key(tx),
        !chargeback_step(dispute_step(deposit_step(a, tx, amount as int), tx), tx).disputed
            .contains(tx),
{
}

/// The closed union of the five event kinds; replaces dynamic dispatch with
/// one exhaustive match.
pub enum Transaction {
    Deposit(Deposit),
    Withdrawal(Withdrawal),
    Dispute(Dispute),
    Resolve(Resolve),
    Chargeback(Chargeback),
}

impl Transaction {
    /// Builds the transaction a raw record describes; fails exactly when a
    /// deposit or withdrawal lacks its amount.
    pub fn create(kind: TxKind, id: TxId, amount: Option<i64>) -> (r: Result<Transaction, TxError>)
        ensures
            r == create_spec(kind, id, amount),
    {
        match kind {
            TxKind::Deposit => match Deposit::create(id, amount) {
                Ok(t) => Ok(Transaction::Deposit(t)),
                Err(e) => Err(e),
            },
            TxKind::Withdraw => match Withdrawal::create(id, amount) {
                Ok(t) => Ok(Transaction::Withdrawal(t)),
                Err(e) => Err(e),
            },
            TxKind::Dispute => match Dispute::create(id, amount) {
                Ok(t) => Ok(Transaction::Dispute(t)),
                Err(e) => Err(e),
            },
            TxKind::Resolve => match Resolve::create(id, amount) {
                Ok(t) => Ok(Transaction::Resolve(t)),
                Err(e) => Err(e),
            },
            TxKind::Chargeback => match Chargeback::create(id, amount) {
                Ok(t) => Ok(Transaction::Chargeback(t)),
                Err(e) => Err(e),
            },
        }
    }

    /// The arithmetic that applying this transaction to `a` would perform
    /// stays within the balances' carrier type.
    pub open spec fn fits(self, a: AccountView) -> bool {
        match self {
            Transaction::Deposit(d) => in_balance_range(a.available + d.amount)
                && in_balance_range(a.total + d.amount),
            Transaction::Withdrawal(w) => a.available >= w.amount ==> in_balance_range(
                a.available - w.amount,
            ) && in_balance_range(a.total - w.amount),
            Transaction::Dispute(d) => a.hist.contains_key(d.id) ==> in_balance_range(
                a.available - a.hist[d.id],
            ) && in_balance_range(a.held + a.hist[d.id]),
            Transaction::Resolve(r) => a.disputed.contains(r.id) && a.hist.contains_key(r.id)
                ==> in_balance_range(a.available + a.hist[r.id]) && in_balance_range(
                a.held - a.hist[r.id],
            ),
            Transaction::Chargeback(c) => a.disputed.contains(c.id) && a.hist.contains_key(c.id)
                ==> in_balance_range(a.total - a.hist[c.id]) && in_balance_range(
                a.held - a.hist[c.id],
            ),
        }
    }

    /// Applies the rule for this transaction's kind to the account, as one
    /// exhaustive match over the closed union.
    pub fn apply(self, acc: &mut AccountState) -> (r: Result<(), TxError>)
        requires
            self.fits(old(acc)@),
        ensures
            trans_step(old(acc)@, self) matches Ok(a2) ==> r == Ok::<(), TxError>(())
                && final(acc)@ == a2,
            trans_step(old(acc)@, self) matches Err(e) ==> r == Err::<(), TxError>(e)
                && final(acc)@ == old(acc)@,
    {
        match self {
            Transaction::Deposit(t) => t.apply(acc),
            Transaction::Withdrawal(t) => t.apply(acc),
            Transaction::Dispute(t) => t.apply(acc),
            Transaction::Resolve(t) => t.apply(acc),
            Transaction::Chargeback(t) => t.apply(acc),
        }
    }
}

} // verus!
