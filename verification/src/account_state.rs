//! The per-client account record and its mathematical model.

use vstd::prelude::*;
use std::collections::HashMap;
use std::collections::HashSet;

use crate::transaction::Deposit;
use crate::ClientId;
use crate::TxId;

verus! {

broadcast use vstd::std_specs::hash::group_hash_axioms;

/// The mathematical model of one account: exact integer balances, the
/// amounts of the deposits that are still open to dispute, and the set of
/// transactions currently under dispute.
#[verifier::ext_equal]
pub ghost struct AccountView {
    pub client: ClientId,
    pub available: int,
    pub held: int,
    pub total: int,
    pub locked: bool,
    pub hist: Map<TxId, int>,
    pub disputed: Set<TxId>,
}

/// A freshly created account: all balances zero, unlocked, no history.
pub open spec fn account_new(client: ClientId) -> AccountView {
    AccountView {
        client: client,
        available: 0,
        held: 0,
        total: 0,
        locked: false,
        hist: Map::empty(),
        disputed: Set::empty(),
    }
}

impl AccountView {
    /// Well-formedness: the balance invariant `total == available + held`,
    /// every disputed transaction still has its deposit on record, and every
    /// recorded amount fits the fixed-point carrier type.
    pub open spec fn wf(self) -> bool {
        &&& self.total == self.available + self.held
        &&& forall|t: TxId| self.disputed.contains(t) ==> self.hist.contains_key(t)
        &&& forall|t: TxId| self.hist.contains_key(t)
            ==> i64::MIN <= #[trigger] self.hist[t] <= i64::MAX
    }
}

/// One client's account: exact fixed-point balances, the lock flag, the
/// amounts of past deposits that may still be disputed, and the set of
/// transactions under open dispute.
pub struct AccountState {
    pub client: ClientId,
    pub available: i128,
    pub held: i128,
    pub total: i128,
    pub locked: bool,
    pub hist: HashMap<TxId, i64>,
    pub disputed_tx: HashSet<TxId>,
}

impl View for AccountState {
    type V = AccountView;

    open spec fn view(&self) -> AccountView {
        AccountView {
            client: self.client,
            available: self.available as int,
            held: self.held as int,
            total: self.total as int,
            locked: self.locked,
            hist: self.hist@.map_values(|a: i64| a as int),
            disputed: self.disputed_tx@,
        }
    }
}

impl AccountState {
    /// Creates the account for `client` with zero balances, unlocked.
    pub fn new(client: ClientId) -> (acc: AccountState)
        ensures
            acc@ == account_new(client),
    {
        let acc = AccountState {
            client,
            available: 0,
            held: 0,
            total: 0,
            locked: false,
            hist: HashMap::new(),
            disputed_tx: HashSet::new(),
        };
        proof {
            assert(acc@ =~= account_new(client));
        }
        acc
    }

    /// Records a deposit's amount under its transaction id, so that the
    /// deposit can be disputed later.
    pub fn register_deposit(&mut self, id: TxId, tx: Deposit)
        ensures
            final(self)@ == (AccountView {
                hist: old(self)@.hist.insert(id, tx.amount as int),
                ..old(self)@
            }),
    {
        self.hist.insert(id, tx.amount);
        proof {
            assert(self@.hist =~= old(self)@.hist.insert(id, tx.amount as int));
            assert(self@ =~= (AccountView {
                hist: old(self)@.hist.insert(id, tx.amount as int),
                ..old(self)@
            }));
        }
    }

    /// Marks the transaction `id` as being under open dispute.
    pub fn register_dispute(&mut self, id: TxId)
        ensures
            final(self)@ == (AccountView {
                disputed: old(self)@.disputed.insert(id),
                ..old(self)@
            }),
    {
        self.disputed_tx.insert(id);
        proof {
            assert(self@ =~= (AccountView {
                disputed: old(self)@.disputed.insert(id),
                ..old(self)@
            }));
        }
    }

    /// Concludes the dispute on `id`: the transaction leaves both the
    /// dispute set and the history, so it can never be disputed again.
    pub fn unregister_dispute(&mut self, id: TxId)
        ensures
            final(self)@ == (AccountView {
                hist: old(self)@.hist.remove(id),
                disputed: old(self)@.disputed.remove(id),
                ..old(self)@
            }),
    {
        self.disputed_tx.remove(&id);
        self.hist.remove(&id);
        proof {
            assert(self@.hist =~= old(self)@.hist.remove(id));
            assert(self@ =~= (AccountView {
                hist: old(self)@.hist.remove(id),
                disputed: old(self)@.disputed.remove(id),
                ..old(self)@
            }));
        }
    }
}

} // verus!
