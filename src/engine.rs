//! The replay engine: applies each record to the ledger in arrival order and
//! keeps the history of records by transaction id.
use std::collections::HashMap;
use vstd::prelude::*;
use crate::client::{in_range, BALANCE_LIMIT, Client};
use crate::transaction::{
    all_disputed, amount_of, amount_sum, any_amount, every_disputed, has_amount, is_malformed,
    mark_disputed, set_disputed, total_amount, Transaction, TransactionType,
};

verus! {

broadcast use vstd::std_specs::hash::group_hash_axioms;

/// What became of one record.
#[derive(Clone, Copy, Debug, PartialEq, Eq, Structural)]
pub enum Outcome {
    /// The record took effect.
    Applied,
    /// A record other than a deposit names a client with no account.
    OutOfOrder,
    /// The client's account is locked.
    Locked,
    /// A withdrawal exceeds the available funds.
    InsufficientFunds,
    /// No record under the referenced id carries an amount.
    UnknownReference,
    /// Some record under the referenced id is not under dispute.
    NotDisputed,
    /// A balance would leave the range the ledger can hold.
    Overflow,
    /// A deposit or withdrawal without its amount.
    Malformed,
}

/// Every account is well formed and filed under its own id.
pub open spec fn ledger_wf(m: Map<u16, Client>) -> bool {
    forall|k: u16| #[trigger] m.contains_key(k) ==> m[k].wf() && m[k].client == k
}

/// The records under the id of `t` once `t` is appended to them.
pub open spec fn history_list(h: Map<u32, Seq<Transaction>>, t: Transaction) -> Seq<Transaction> {
    if h.contains_key(t.tx) {
        h[t.tx].push(t)
    } else {
        seq![t]
    }
}

/// The effect of `t` on the ledger, given `s`, the records under its id with
/// `t` already appended. Gives the new ledger, the new records under that
/// id, and the outcome.
///
/// A dispute holds the sum of every record in `s` that carries an amount. A
/// resolve or a chargeback is all or nothing: it moves that sum only when
/// each of those records is under dispute, and otherwise changes nothing.
pub open spec fn apply_spec(clients: Map<u16, Client>, s: Seq<Transaction>, t: Transaction) -> (
    Map<u16, Client>,
    Seq<Transaction>,
    Outcome,
) {
    let id = t.client_id;
    let a = amount_of(t);
    let sum = amount_sum(s);
    if !clients.contains_key(id) {
        if t.t == TransactionType::Deposit {
            (clients.insert(id, Client::spec_new(id, a)), s, Outcome::Applied)
        } else {
            (clients, s, Outcome::OutOfOrder)
        }
    } else {
        let c = clients[id];
        if c.lock {
            (clients, s, Outcome::Locked)
        } else if t.t == TransactionType::Deposit {
            if in_range(c.available + a) {
                (clients.insert(id, c.credited(a)), s, Outcome::Applied)
            } else {
                (clients, s, Outcome::Overflow)
            }
        } else if t.t == TransactionType::Withdrawal {
            if c.available < a {
                (clients, s, Outcome::InsufficientFunds)
            } else {
                (clients.insert(id, c.debited(a)), s, Outcome::Applied)
            }
        } else if !has_amount(s) {
            (clients, s, Outcome::UnknownReference)
        } else if t.t == TransactionType::Dispute {
            if in_range(c.available - sum) && in_range(c.held + sum) {
                (clients.insert(id, c.holding(sum)), set_disputed(s, true), Outcome::Applied)
            } else {
                (clients, s, Outcome::Overflow)
            }
        } else if !all_disputed(s) {
            (clients, s, Outcome::NotDisputed)
        } else if t.t == TransactionType::Resolve {
            if in_range(c.available + sum) && in_range(c.held - sum) {
                (clients.insert(id, c.releasing(sum)), set_disputed(s, false), Outcome::Applied)
            } else {
                (clients, s, Outcome::Overflow)
            }
        } else {
            if in_range(c.held - sum) {
                (clients.insert(id, c.seizing(sum)), set_disputed(s, false), Outcome::Applied)
            } else {
                (clients, s, Outcome::Overflow)
            }
        }
    }
}

/// One step of the replay: the ledger, the history and the outcome after `t`.
/// A malformed record changes nothing; any other is first appended to the
/// history under its id.
pub open spec fn step(clients: Map<u16, Client>, h: Map<u32, Seq<Transaction>>, t: Transaction) -> (
    Map<u16, Client>,
    Map<u32, Seq<Transaction>>,
    Outcome,
) {
    if is_malformed(t) {
        (clients, h, Outcome::Malformed)
    } else {
        let r = apply_spec(clients, history_list(h, t), t);
        (r.0, h.insert(t.tx, r.1), r.2)
    }
}

/// The ledger and the history after replaying `s` in order.
pub open spec fn replay(clients: Map<u16, Client>, h: Map<u32, Seq<Transaction>>, s: Seq<Transaction>) -> (
    Map<u16, Client>,
    Map<u32, Seq<Transaction>>,
)
    decreases s.len(),
{
    if s.len() == 0 {
        (clients, h)
    } else {
        let prev = replay(clients, h, s.drop_last());
        let r = step(prev.0, prev.1, s.last());
        (r.0, r.1)
    }
}

/// The ledger and the history by transaction id. `order` lists the clients
/// in the order their accounts were opened.
pub struct PaymentEngine {
    pub transactions: HashMap<u32, Vec<Transaction>>,
    pub clients: HashMap<u16, Client>,
    pub order: Vec<u16>,
}

impl PaymentEngine {
    pub open spec fn ledger(&self) -> Map<u16, Client> {
        self.clients@
    }

    pub open spec fn history(&self) -> Map<u32, Seq<Transaction>> {
        self.transactions@.map_values(|v: Vec<Transaction>| v@)
    }

    /// Accounts are well formed and `order` lists each of them once.
    pub open spec fn wf(&self) -> bool {
        &&& ledger_wf(self.ledger())
        &&& self.order@.no_duplicates()
        &&& forall|k: u16| self.ledger().contains_key(k) <==> #[trigger] self.order@.contains(k)
    }

    /// An engine with no accounts and no history.
    pub fn new() -> (e: PaymentEngine)
        ensures
            e.wf(),
            e.ledger() == Map::<u16, Client>::empty(),
            e.history() == Map::<u32, Seq<Transaction>>::empty(),
    {
        let e = PaymentEngine { transactions: HashMap::new(), clients: HashMap::new(), order: Vec::new() };
        assert(e.history() =~= Map::<u32, Seq<Transaction>>::empty());
        e
    }

    /// The account of `id`, if it has one.
    pub fn client(&self, id: u16) -> (r: Option<Client>)
        ensures
            r == (if self.ledger().contains_key(id) {
                Some(self.ledger()[id])
            } else {
                None
            }),
    {
        match self.clients.get(&id) {
            Some(c) => Some(*c),
            None => None,
        }
    }

    /// Every account, in the order the accounts were opened.
    pub fn accounts(&self) -> (r: Vec<Client>)
        requires
            self.wf(),
        ensures
            r@ == self.order@.map_values(|k: u16| self.ledger()[k]),
    {
        let mut r: Vec<Client> = Vec::new();
        let mut i: usize = 0;
        while i < self.order.len()
            invariant
                self.wf(),
                0 <= i <= self.order@.len(),
                r@ =~= self.order@.take(i as int).map_values(|k: u16| self.ledger()[k]),
            decreases self.order@.len() - i,
        {
            let id = self.order[i];
            assert(self.order@.contains(id));
            let c = self.account(id);
            r.push(c);
            assert(self.order@.take(i + 1) =~= self.order@.take(i as int).push(id));
            i += 1;
        }
        assert(self.order@.take(i as int) =~= self.order@);
        r
    }

    /// Replays one record: appends it to the history under its id, opens
    /// the client's account on a first deposit, and otherwise applies it to
    /// the existing account.
    pub fn run_transaction(&mut self, tx: &Transaction) -> (o: Outcome)
        requires
            old(self).wf(),
        ensures
            final(self).wf(),
            (final(self).ledger(), final(self).history(), o) == step(
                old(self).ledger(),
                old(self).history(),
                *tx,
            ),
    {
        let malformed = match tx.t {
            TransactionType::Deposit | TransactionType::Withdrawal => tx.amount.is_none(),
            _ => false,
        };
        if malformed {
            return Outcome::Malformed;
        }
        let ghost h0 = self.history();
        let mut list = match self.transactions.remove(&tx.tx) {
            Some(v) => v,
            None => Vec::new(),
        };
        list.push(*tx);
        assert(list@ =~= history_list(h0, *tx));
        let o = if !self.clients.contains_key(&tx.client_id) {
            match tx.t {
                TransactionType::Deposit => {
                    let a = match tx.amount {
                        Some(a) => a,
                        None => 0,
                    };
                    let c = Client::new(tx.client_id, a);
                    self.clients.insert(tx.client_id, c);
                    self.order.push(tx.client_id);
                    proof {
                        assert(!old(self).order@.contains(tx.client_id));
                        assert(self.order@.no_duplicates()) by {
                            assert forall|i: int, j: int|
                                0 <= i < self.order@.len() && 0 <= j < self.order@.len() && i != j
                                    implies self.order@[i] != self.order@[j] by {
                                if i == self.order@.len() - 1 {
                                    assert(old(self).order@[j] == self.order@[j]);
                                } else if j == self.order@.len() - 1 {
                                    assert(old(self).order@[i] == self.order@[i]);
                                }
                            }
                        }
                        assert(ledger_wf(self.ledger()));
                        assert forall|k: u16|
                            self.ledger().contains_key(k) <==> #[trigger] self.order@.contains(k) by {
                            if k != tx.client_id {
                                if self.order@.contains(k) {
                                    let j = choose|j: int|
                                        0 <= j < self.order@.len() && self.order@[j] == k;
                                    assert(old(self).order@[j] == k);
                                }
                                if old(self).order@.contains(k) {
                                    let j = choose|j: int|
                                        0 <= j < old(self).order@.len() && old(self).order@[j] == k;
                                    assert(self.order@[j] == k);
                                }
                            } else {
                                assert(self.order@.last() == k);
                            }
                        }
                    }
                    Outcome::Applied
                },
                _ => Outcome::OutOfOrder,
            }
        } else {
            match tx.t {
                TransactionType::Deposit => self.deposit(tx),
                TransactionType::Withdrawal => self.withdrawal(tx),
                TransactionType::Dispute => self.dispute(tx, &mut list),
                TransactionType::Resolve => self.resolve(tx, &mut list),
                TransactionType::Chargeback => self.chargeback(tx, &mut list),
            }
        };
        self.transactions.insert(tx.tx, list);
        assert(self.history() =~= h0.insert(tx.tx, list@));
        o
    }

    /// The account of a client that has one.
    fn account(&self, id: u16) -> (c: Client)
        requires
            self.ledger().contains_key(id),
        ensures
            c == self.ledger()[id],
    {
        match self.clients.get(&id) {
            Some(c) => *c,
            None => Client::new(id, 0),
        }
    }

    /// Credits a deposit to an open, unlocked account.
    fn deposit(&mut self, tx: &Transaction) -> (o: Outcome)
        requires
            old(self).wf(),
            old(self).ledger().contains_key(tx.client_id),
            tx.t == TransactionType::Deposit,
            !is_malformed(*tx),
        ensures
            final(self).wf(),
            final(self).transactions@ == old(self).transactions@,
            final(self).ledger() == apply_spec(old(self).ledger(), seq![], *tx).0,
            o == apply_spec(old(self).ledger(), seq![], *tx).2,
    {
        let mut c = self.account(tx.client_id);
        if c.lock {
            return Outcome::Locked;
        }
        let a = match tx.amount {
            Some(a) => a,
            None => 0,
        };
        if c.available + a as i128 > BALANCE_LIMIT {
            return Outcome::Overflow;
        }
        c.deposit(a);
        self.clients.insert(tx.client_id, c);
        Outcome::Applied
    }

    /// Debits a withdrawal from an open, unlocked account with enough
    /// available funds.
    fn withdrawal(&mut self, tx: &Transaction) -> (o: Outcome)
        requires
            old(self).wf(),
            old(self).ledger().contains_key(tx.client_id),
            tx.t == TransactionType::Withdrawal,
            !is_malformed(*tx),
        ensures
            final(self).wf(),
            final(self).transactions@ == old(self).transactions@,
            final(self).ledger() == apply_spec(old(self).ledger(), seq![], *tx).0,
            o == apply_spec(old(self).ledger(), seq![], *tx).2,
    {
        let mut c = self.account(tx.client_id);
        if c.lock {
            return Outcome::Locked;
        }
        let a = match tx.amount {
            Some(a) => a,
            None => 0,
        };
        if c.available < a as i128 {
            return Outcome::InsufficientFunds;
        }
        c.withdrawal(a);
        self.clients.insert(tx.client_id, c);
        Outcome::Applied
    }

    /// Holds the amounts of the records under the referenced id and marks
    /// them disputed.
    fn dispute(&mut self, tx: &Transaction, list: &mut Vec<Transaction>) -> (o: Outcome)
        requires
            old(self).wf(),
            old(self).ledger().contains_key(tx.client_id),
            tx.t == TransactionType::Dispute,
        ensures
            final(self).wf(),
            final(self).transactions@ == old(self).transactions@,
            (final(self).ledger(), final(list)@, o) == apply_spec(old(self).ledger(), old(list)@, *tx),
    {
        let mut c = self.account(tx.client_id);
        if c.lock {
            return Outcome::Locked;
        }
        if !any_amount(list) {
            return Outcome::UnknownReference;
        }
        proof {
            crate::transaction::lemma_amount_sum_prefix(list@, 0);
        }
        let sum = match total_amount(list) {
            Some(v) => v as i128,
            None => {
                return Outcome::Overflow;
            },
        };
        if c.available - sum < -BALANCE_LIMIT || c.held + sum > BALANCE_LIMIT {
            return Outcome::Overflow;
        }
        mark_disputed(list, true);
        c.dispute(sum);
        self.clients.insert(tx.client_id, c);
        Outcome::Applied
    }

    /// Releases the amounts of the records under the referenced id, when
    /// every one of them is under dispute.
    fn resolve(&mut self, tx: &Transaction, list: &mut Vec<Transaction>) -> (o: Outcome)
        requires
            old(self).wf(),
            old(self).ledger().contains_key(tx.client_id),
            tx.t == TransactionType::Resolve,
        ensures
            final(self).wf(),
            final(self).transactions@ == old(self).transactions@,
            (final(self).ledger(), final(list)@, o) == apply_spec(old(self).ledger(), old(list)@, *tx),
    {
        let mut c = self.account(tx.client_id);
        if c.lock {
            return Outcome::Locked;
        }
        if !any_amount(list) {
            return Outcome::UnknownReference;
        }
        if !every_disputed(list) {
            return Outcome::NotDisputed;
        }
        proof {
            crate::transaction::lemma_amount_sum_prefix(list@, 0);
        }
        let sum = match total_amount(list) {
            Some(v) => v as i128,
            None => {
                return Outcome::Overflow;
            },
        };
        if c.available + sum > BALANCE_LIMIT || c.held - sum < -BALANCE_LIMIT {
            return Outcome::Overflow;
        }
        mark_disputed(list, false);
        c.resolve(sum);
        self.clients.insert(tx.client_id, c);
        Outcome::Applied
    }

    /// Seizes the amounts of the records under the referenced id and locks
    /// the account, when every one of them is under dispute.
    fn chargeback(&mut self, tx: &Transaction, list: &mut Vec<Transaction>) -> (o: Outcome)
        requires
            old(self).wf(),
            old(self).ledger().contains_key(tx.client_id),
            tx.t == TransactionType::Chargeback,
        ensures
            final(self).wf(),
            final(self).transactions@ == old(self).transactions@,
            (final(self).ledger(), final(list)@, o) == apply_spec(old(self).ledger(), old(list)@, *tx),
    {
        let mut c = self.account(tx.client_id);
        if c.lock {
            return Outcome::Locked;
        }
        if !any_amount(list) {
            return Outcome::UnknownReference;
        }
        if !every_disputed(list) {
            return Outcome::NotDisputed;
        }
        proof {
            crate::transaction::lemma_amount_sum_prefix(list@, 0);
        }
        let sum = match total_amount(list) {
            Some(v) => v as i128,
            None => {
                return Outcome::Overflow;
            },
        };
        if c.held - sum < -BALANCE_LIMIT {
            return Outcome::Overflow;
        }
        mark_disputed(list, false);
        c.chargeback(sum);
        self.clients.insert(tx.client_id, c);
        Outcome::Applied
    }
}

} // verus!
