//! The account ledger and the replay engine.
//!
//! The ledger owns every account the stream has referenced, in first-seen
//! order. Replaying a stream applies each record, in arrival order, to the
//! account it addresses; the first malformed deposit or withdrawal aborts
//! the whole run.

use vstd::prelude::*;

use crate::account_state::account_new;
use crate::account_state::AccountState;
use crate::account_state::AccountView;
use crate::transaction::tx_fits;
use crate::transaction::tx_step;
use crate::transaction::lemma_tx_step_preserves_wf;
use crate::transaction::Chargeback;
use crate::transaction::Deposit;
use crate::transaction::Dispute;
use crate::transaction::Record;
use crate::transaction::Resolve;
use crate::transaction::TxError;
use crate::transaction::TxKind;
use crate::transaction::Withdrawal;
use crate::ClientId;

verus! {

/// The models of a row of accounts, in the same order.
pub open spec fn views_of(accs: Seq<AccountState>) -> Seq<AccountView> {
    accs.map_values(|a: AccountState| a@)
}

/// Whether some account in `l` belongs to `client`.
pub open spec fn has_client(l: Seq<AccountView>, client: ClientId) -> bool {
    exists|i: int| 0 <= i < l.len() && l[i].client == client
}

/// The position of `client`'s account; determined whenever the clients of
/// `l` are pairwise distinct and one of them is `client`.
pub open spec fn client_index(l: Seq<AccountView>, client: ClientId) -> int {
    choose|i: int| 0 <= i < l.len() && l[i].client == client
}

/// A well-formed ledger: every account is well-formed and no two accounts
/// belong to the same client.
pub open spec fn ledger_wf(l: Seq<AccountView>) -> bool {
    &&& forall|i: int, j: int|
        0 <= i < j < l.len() ==> (#[trigger] l[i]).client != (#[trigger] l[j]).client
    &&& forall|i: int| 0 <= i < l.len() ==> (#[trigger] l[i]).wf()
}

/// The ledger with `client`'s account present: unchanged if the client has
/// appeared before, otherwise extended by a fresh zeroed account.
pub open spec fn with_client(l: Seq<AccountView>, client: ClientId) -> Seq<AccountView> {
    if has_client(l, client) {
        l
    } else {
        l.push(account_new(client))
    }
}

/// One record applied to the ledger: the addressed account is resolved
/// (created on first reference), a locked account drops the event silently,
/// and otherwise the rule for the record's kind runs on that account alone.
pub open spec fn ledger_step(l: Seq<AccountView>, r: Record) -> Result<Seq<AccountView>, TxError> {
    let l1 = with_client(l, r.client);
    let i = client_index(l1, r.client);
    if l1[i].locked {
        Ok(l1)
    } else {
        match tx_step(l1[i], r) {
            Ok(a2) => Ok(l1.update(i, a2)),
            Err(e) => Err(e),
        }
    }
}

/// The arithmetic that applying `r` to the ledger would perform stays
/// within the balances' carrier type.
pub open spec fn record_fits(l: Seq<AccountView>, r: Record) -> bool {
    tx_fits(with_client(l, r.client)[client_index(with_client(l, r.client), r.client)], r)
}

/// The whole stream replayed from an empty ledger, in arrival order; the
/// first failing record aborts the run with its error.
pub open spec fn replay(rs: Seq<Record>) -> Result<Seq<AccountView>, TxError>
    decreases rs.len(),
{
    if rs.len() == 0 {
        Ok(Seq::<AccountView>::empty())
    } else {
        match replay(rs.drop_last()) {
            Ok(l) => ledger_step(l, rs.last()),
            Err(e) => Err(e),
        }
    }
}

/// No single event moves any balance by more than this.
pub open spec fn step_bound() -> int {
    0x8000000000000000
}

/// Every balance of `a` lies within `k` events' worth of movement.
pub open spec fn bounded_by(a: AccountView, k: int) -> bool {
    &&& -(k * step_bound()) <= a.available <= k * step_bound()
    &&& -(k * step_bound()) <= a.held <= k * step_bound()
    &&& -(k * step_bound()) <= a.total <= k * step_bound()
}

proof fn lemma_bounded_mono(a: AccountView, k1: int, k2: int)
    requires
        bounded_by(a, k1),
        0 <= k1 <= k2,
    ensures
        bounded_by(a, k2),
{
    let b = step_bound();
    assert(k1 * b <= k2 * b && -(k2 * b) <= -(k1 * b)) by (nonlinear_arith)
        requires
            k1 <= k2,
            b >= 0,
    ;
}

proof fn lemma_tx_step_bounded(a: AccountView, r: Record, k: int)
    requires
        a.wf(),
        bounded_by(a, k),
        0 <= k,
    ensures
        tx_step(a, r) matches Ok(a2) ==> bounded_by(a2, k + 1),
{
    let b = step_bound();
    assert((k + 1) * b == k * b + b) by (nonlinear_arith);
    match tx_step(a, r) {
        Ok(a2) => {
            if a.hist.contains_key(r.tx) {
                assert(i64::MIN <= a.hist[r.tx] <= i64::MAX);
            }
        },
        Err(_) => {
        },
    }
}

proof fn lemma_bounded_tx_fits(a: AccountView, r: Record, k: int)
    requires
        a.wf(),
        bounded_by(a, k),
        0 <= k,
        k + 1 <= 0xFFFFFFFFFFFFFFFF,
    ensures
        tx_fits(a, r),
{
    let b = step_bound();
    assert((k + 1) * b == k * b + b) by (nonlinear_arith);
    assert((k + 1) * b <= 0xFFFFFFFFFFFFFFFF * b) by (nonlinear_arith)
        requires
            k + 1 <= 0xFFFFFFFFFFFFFFFF,
            b >= 0,
    ;
    if a.hist.contains_key(r.tx) {
        assert(i64::MIN <= a.hist[r.tx] <= i64::MAX);
    }
}

/// After every event of a replayed stream, every account is well-formed —
/// in particular its balances satisfy `total == available + held` exactly —
/// the accounts belong to pairwise distinct clients, and every balance lies
/// within the stream's length worth of movement.
pub proof fn lemma_replay_wf(rs: Seq<Record>)
    ensures
        replay(rs) matches Ok(l) ==> ledger_wf(l) && (forall|i: int|
            0 <= i < l.len() ==> bounded_by(#[trigger] l[i], rs.len() as int)),
    decreases rs.len(),
{
    if rs.len() == 0 {
    } else {
        let prefix = rs.drop_last();
        lemma_replay_wf(prefix);
        let k = prefix.len() as int;
        match replay(prefix) {
            Ok(l0) => {
                let r = rs.last();
                let l1 = with_client(l0, r.client);
                assert(ledger_wf(l1) && forall|i: int|
                    0 <= i < l1.len() ==> bounded_by(#[trigger] l1[i], k)) by {
                    if !has_client(l0, r.client) {
                        assert(account_new(r.client).wf());
                        assert(bounded_by(account_new(r.client), 0));
                        lemma_bounded_mono(account_new(r.client), 0, k);
                        assert forall|i: int, j: int| 0 <= i < j < l1.len() implies (
                        #[trigger] l1[i]).client != (#[trigger] l1[j]).client by {
                            if j == l0.len() as int {
                                assert(!(0 <= i < l0.len() && l0[i].client == r.client));
                            }
                        }
                    }
                }
                let ci = client_index(l1, r.client);
                assert(0 <= ci < l1.len() && l1[ci].client == r.client) by {
                    if has_client(l0, r.client) {
                        let w = choose|i: int| 0 <= i < l0.len() && l0[i].client == r.client;
                        assert(0 <= w < l1.len() && l1[w].client == r.client);
                    } else {
                        assert(l1[l0.len() as int].client == r.client);
                    }
                }
                if !l1[ci].locked {
                    match tx_step(l1[ci], r) {
                        Ok(a2) => {
                            lemma_tx_step_preserves_wf(l1[ci], r);
                            lemma_tx_step_bounded(l1[ci], r, k);
                            let l2 = l1.update(ci, a2);
                            assert forall|i: int|
                                0 <= i < l2.len() implies bounded_by(
                                #[trigger] l2[i],
                                rs.len() as int,
                            ) by {
                                if i == ci {
                                    assert(bounded_by(a2, k + 1));
                                } else {
                                    lemma_bounded_mono(l1[i], k, k + 1);
                                }
                            }
                        },
                        Err(_) => {
                        },
                    }
                } else {
                    assert forall|i: int|
                        0 <= i < l1.len() implies bounded_by(#[trigger] l1[i], rs.len() as int) by {
                        lemma_bounded_mono(l1[i], k, k + 1);
                    }
                }
            },
            Err(_) => {
            },
        }
    }
}

/// The balance invariant: after replaying any stream, every account holds
/// `total == available + held`, exactly. Replaying any prefix of a stream
/// is itself a replay, so the invariant holds after every single event.
pub proof fn lemma_replay_balance_invariant(rs: Seq<Record>)
    ensures
        replay(rs) matches Ok(l) ==> forall|i: int|
            0 <= i < l.len() ==> (#[trigger] l[i]).total == l[i].available + l[i].held,
{
    lemma_replay_wf(rs);
}

/// Once a prefix of the stream has failed, the whole stream fails with the
/// same error: the accumulated state is discarded and never emitted.
pub proof fn lemma_replay_error_persists(rs: Seq<Record>, j: int, e: TxError)
    requires
        0 <= j <= rs.len(),
        replay(rs.take(j)) == Err::<Seq<AccountView>, TxError>(e),
    ensures
        replay(rs) == Err::<Seq<AccountView>, TxError>(e),
    decreases rs.len() - j,
{
    if j == rs.len() as int {
        assert(rs.take(j) =~= rs);
    } else {
        assert(rs.take(j + 1).drop_last() =~= rs.take(j));
        assert(replay(rs.take(j + 1)) == Err::<Seq<AccountView>, TxError>(e));
        lemma_replay_error_persists(rs, j + 1, e);
    }
}

/// A record addressed to a locked account changes nothing: every event on a
/// frozen account, a further deposit included, is silently dropped.
pub proof fn lemma_locked_account_ignored(l: Seq<AccountView>, r: Record)
    requires
        has_client(l, r.client),
        l[client_index(l, r.client)].locked,
    ensures
        ledger_step(l, r) == Ok::<Seq<AccountView>, TxError>(l),
{
}

/// The account ledger: every account the stream has referenced, in
/// first-seen order. No account is ever removed, even at zero balance.
pub struct Ledger {
    pub accounts: Vec<AccountState>,
}

impl View for Ledger {
    type V = Seq<AccountView>;

    open spec fn view(&self) -> Seq<AccountView> {
        views_of(self.accounts@)
    }
}

impl Ledger {
    /// An empty ledger.
    pub fn new() -> (l: Ledger)
        ensures
            l@ == Seq::<AccountView>::empty(),
    {
        let l = Ledger { accounts: Vec::new() };
        proof {
            assert(l@ =~= Seq::<AccountView>::empty());
        }
        l
    }

    /// Returns the position of `client`'s account, creating a zeroed,
    /// unlocked account at the end on first reference; creation cannot fail.
    pub fn get_or_create(&mut self, client: ClientId) -> (i: usize)
        requires
            ledger_wf(old(self)@),
        ensures
            final(self)@ == with_client(old(self)@, client),
            ledger_wf(final(self)@),
            i == client_index(final(self)@, client),
            i < final(self)@.len(),
            final(self)@[i as int].client == client,
    {
        let n = self.accounts.len();
        let mut k: usize = 0;
        while k < n
            invariant
                self.accounts@ == old(self).accounts@,
                n == self.accounts@.len(),
                k <= n,
                ledger_wf(self@),
                forall|j: int| 0 <= j < k ==> (#[trigger] self@[j]).client != client,
            decreases n - k,
        {
            if self.accounts[k].client == client {
                proof {
                    let l = self@;
                    assert(l[k as int].client == client);
                    assert(has_client(l, client));
                    let ci = client_index(l, client);
                    assert(0 <= ci < l.len() && l[ci].client == client);
                    assert(ci == k as int) by {
                        if ci < k as int {
                            assert(l[ci].client != l[k as int].client);
                        } else if ci > k as int {
                            assert(l[k as int].client != l[ci].client);
                        }
                    }
                }
                return k;
            }
            k += 1;
        }
        let acc = AccountState::new(client);
        self.accounts.push(acc);
        proof {
            let l0 = old(self)@;
            assert(!has_client(l0, client));
            assert(self@ =~= l0.push(account_new(client)));
            let l1 = self@;
            assert(l1[n as int].client == client);
            assert(has_client(l1, client));
            let ci = client_index(l1, client);
            assert(0 <= ci < l1.len() && l1[ci].client == client);
            assert(ci == n as int) by {
                if ci < n as int {
                    assert(!(0 <= ci < l0.len() && l0[ci].client == client));
                }
            }
            assert(ledger_wf(l1)) by {
                assert(account_new(client).wf());
                assert forall|i: int, j: int| 0 <= i < j < l1.len() implies (
                #[trigger] l1[i]).client != (#[trigger] l1[j]).client by {
                    if j == n as int {
                        assert(!(0 <= i < l0.len() && l0[i].client == client));
                    }
                }
            }
        }
        n
    }

    /// Applies one record: resolves the addressed account, drops the event
    /// silently if that account is locked, and otherwise runs the rule for
    /// the record's kind on it. Fails exactly when the rule fails; on
    /// failure every balance is left as it was.
    pub fn apply(&mut self, r: &Record) -> (res: Result<(), TxError>)
        requires
            ledger_wf(old(self)@),
            record_fits(old(self)@, *r),
        ensures
            ledger_step(old(self)@, *r) matches Ok(l2) ==> res == Ok::<(), TxError>(())
                && final(self)@ == l2,
            ledger_step(old(self)@, *r) matches Err(e) ==> res == Err::<(), TxError>(e)
                && final(self)@ == with_client(old(self)@, r.client),
    {
        let i = self.get_or_create(r.client);
        let ghost l1 = self@;
        if self.accounts[i].locked {
            return Ok(());
        }
        let mut acc = self.accounts.remove(i);
        proof {
            assert(acc@ == l1[i as int]);
        }
        let res: Result<(), TxError> = match r.kind {
            TxKind::Deposit => match Deposit::create(r.tx, r.amount) {
                Ok(t) => t.apply(&mut acc),
                Err(e) => Err(e),
            },
            TxKind::Withdraw => match Withdrawal::create(r.tx, r.amount) {
                Ok(t) => t.apply(&mut acc),
                Err(e) => Err(e),
            },
            TxKind::Dispute => match Dispute::create(r.tx, r.amount) {
                Ok(t) => t.apply(&mut acc),
                Err(e) => Err(e),
            },
            TxKind::Resolve => match Resolve::create(r.tx, r.amount) {
                Ok(t) => t.apply(&mut acc),
                Err(e) => Err(e),
            },
            TxKind::Chargeback => match Chargeback::create(r.tx, r.amount) {
                Ok(t) => t.apply(&mut acc),
                Err(e) => Err(e),
            },
        };
        self.accounts.insert(i, acc);
        proof {
            match tx_step(l1[i as int], *r) {
                Ok(a2) => {
                    assert(acc@ == a2);
                    assert(self@ =~= l1.update(i as int, a2));
                },
                Err(_) => {
                    assert(acc@ == l1[i as int]);
                    assert(self@ =~= l1);
                },
            }
        }
        res
    }

    /// Hands out the final state of every account ever referenced, in
    /// first-seen order; the ledger is consumed.
    pub fn snapshot(self) -> (v: Vec<AccountState>)
        ensures
            views_of(v@) == self@,
    {
        self.accounts
    }
}

/// Replays a whole stream of records against an initially empty ledger and
/// returns the final snapshot, or the error of the first failing record, in
/// which case no state is emitted.
pub fn process_tx(records: &Vec<Record>) -> (res: Result<Vec<AccountState>, TxError>)
    ensures
        res matches Ok(accs) ==> replay(records@) == Ok::<Seq<AccountView>, TxError>(
            views_of(accs@),
        ),
        res matches Err(e) ==> replay(records@) == Err::<Seq<AccountView>, TxError>(e),
{
    let n = records.len();
    let mut ledger = Ledger::new();
    let mut idx: usize = 0;
    proof {
        assert(records@.take(0) =~= Seq::<Record>::empty());
    }
    while idx < n
        invariant
            n == records@.len(),
            idx <= n,
            replay(records@.take(idx as int)) == Ok::<Seq<AccountView>, TxError>(ledger@),
        decreases n - idx,
    {
        let r = records[idx];
        proof {
            lemma_replay_wf(records@.take(idx as int));
            assert(ledger_wf(ledger@));
            let l1 = with_client(ledger@, r.client);
            let ci = client_index(l1, r.client);
            assert(0 <= ci < l1.len() && l1[ci].client == r.client) by {
                if has_client(ledger@, r.client) {
                    let w = choose|i: int|
                        0 <= i < ledger@.len() && ledger@[i].client == r.client;
                    assert(0 <= w < l1.len() && l1[w].client == r.client);
                } else {
                    assert(l1[ledger@.len() as int].client == r.client);
                }
            }
            assert(usize::MAX <= 0xFFFFFFFFFFFFFFFF);
            if ci < ledger@.len() as int {
                lemma_bounded_tx_fits(l1[ci], r, idx as int);
            } else {
                assert(l1[ci] == account_new(r.client));
                assert(bounded_by(account_new(r.client), 0));
                lemma_bounded_tx_fits(l1[ci], r, 0);
            }
            assert(record_fits(ledger@, r));
        }
        let step = ledger.apply(&r);
        proof {
            assert(records@.take(idx as int + 1).drop_last() =~= records@.take(idx as int));
            assert(records@.take(idx as int + 1).last() == records@[idx as int]);
        }
        match step {
            Ok(()) => {
            },
            Err(e) => {
                proof {
                    assert(replay(records@.take(idx as int + 1)) == Err::<
                        Seq<AccountView>,
                        TxError,
                    >(e));
                    lemma_replay_error_persists(records@, idx as int + 1, e);
                }
                return Err(e);
            },
        }
        idx = idx + 1;
    }
    proof {
        assert(records@.take(n as int) =~= records@);
    }
    Ok(ledger.snapshot())
}

} // verus!
