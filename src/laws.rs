//! Properties of the replay that hold of every input.
use vstd::prelude::*;
use crate::client::Client;
use crate::engine::{apply_spec, history_list, ledger_wf, replay, step, Outcome};
use crate::transaction::{all_disputed, has_amount, Transaction, TransactionType};

verus! {

/// One record keeps every account well formed: `total` stays
/// `available + held`.
pub proof fn lemma_step_keeps_balances(
    clients: Map<u16, Client>,
    h: Map<u32, Seq<Transaction>>,
    t: Transaction,
)
    requires
        ledger_wf(clients),
    ensures
        ledger_wf(step(clients, h, t).0),
{
    crate::transaction::lemma_amount_sum_prefix(history_list(h, t), 0);
}

/// Replaying any sequence of records, and so any prefix of an input, keeps
/// every account well formed: `total` stays `available + held`.
pub proof fn lemma_replay_keeps_balances(
    clients: Map<u16, Client>,
    h: Map<u32, Seq<Transaction>>,
    s: Seq<Transaction>,
)
    requires
        ledger_wf(clients),
    ensures
        ledger_wf(replay(clients, h, s).0),
    decreases s.len(),
{
    if s.len() > 0 {
        lemma_replay_keeps_balances(clients, h, s.drop_last());
        let prev = replay(clients, h, s.drop_last());
        lemma_step_keeps_balances(prev.0, prev.1, s.last());
    }
}

/// Resolving or charging back an id none of whose records is under dispute
/// changes no account, and is not applied.
pub proof fn lemma_undisputed_settlement_is_noop(
    clients: Map<u16, Client>,
    h: Map<u32, Seq<Transaction>>,
    t: Transaction,
)
    requires
        t.t == TransactionType::Resolve || t.t == TransactionType::Chargeback,
        !t.dispute,
        h.contains_key(t.tx) ==> forall|i: int| 0 <= i < h[t.tx].len() ==> !(#[trigger] h[t.tx][i]).dispute,
    ensures
        step(clients, h, t).0 == clients,
        step(clients, h, t).2 != Outcome::Applied,
{
    let s = history_list(h, t);
    if has_amount(s) {
        let i = choose|i: int| 0 <= i < s.len() && (#[trigger] s[i]).amount.is_some();
        if h.contains_key(t.tx) && i < h[t.tx].len() {
            assert(s[i] == h[t.tx][i]);
        }
        assert(!s[i].dispute);
        assert(!all_disputed(s));
    }
}

/// Once an account is locked, no later record of any kind changes it.
pub proof fn lemma_lock_is_final(
    clients: Map<u16, Client>,
    h: Map<u32, Seq<Transaction>>,
    s: Seq<Transaction>,
    id: u16,
)
    requires
        clients.contains_key(id),
        clients[id].lock,
    ensures
        replay(clients, h, s).0.contains_key(id),
        replay(clients, h, s).0[id] == clients[id],
    decreases s.len(),
{
    if s.len() > 0 {
        lemma_lock_is_final(clients, h, s.drop_last(), id);
    }
}

/// A dispute on a deposit whose funds were partly withdrawn holds the whole
/// deposit and drives `available` below zero.
pub proof fn lemma_dispute_after_withdrawal_goes_negative(id: u16, t1: u32, t2: u32, d: u64, w: u64)
    requires
        t1 != t2,
        0 < w <= d,
    ensures
        ({
            let dep = Transaction { t: TransactionType::Deposit, client_id: id, tx: t1, amount: Some(d), dispute: false };
            let wd = Transaction { t: TransactionType::Withdrawal, client_id: id, tx: t2, amount: Some(w), dispute: false };
            let dis = Transaction { t: TransactionType::Dispute, client_id: id, tx: t1, amount: None, dispute: false };
            let c = replay(Map::empty(), Map::empty(), seq![dep, wd, dis]).0[id];
            &&& c.available == -(w as int)
            &&& c.held == d
            &&& c.total == d - w
            &&& c.available < 0
        }),
{
    let dep = Transaction { t: TransactionType::Deposit, client_id: id, tx: t1, amount: Some(d), dispute: false };
    let wd = Transaction { t: TransactionType::Withdrawal, client_id: id, tx: t2, amount: Some(w), dispute: false };
    let dis = Transaction { t: TransactionType::Dispute, client_id: id, tx: t1, amount: None, dispute: false };
    let s = seq![dep, wd, dis];
    assert(s.drop_last() =~= seq![dep, wd]);
    assert(seq![dep, wd].drop_last() =~= seq![dep]);
    assert(seq![dep].drop_last() =~= Seq::<Transaction>::empty());
    let r0 = replay(Map::empty(), Map::empty(), Seq::<Transaction>::empty());
    let r1 = replay(Map::empty(), Map::empty(), seq![dep]);
    let r2 = replay(Map::empty(), Map::empty(), seq![dep, wd]);
    assert(r1.0[id] == Client::spec_new(id, d as int));
    assert(r1.1[t1] =~= seq![dep]);
    assert(r2.0[id].available == d - w);
    assert(r2.1[t1] =~= seq![dep]);
    let l = history_list(r2.1, dis);
    assert(l =~= seq![dep, dis]);
    assert(l.drop_last() =~= seq![dep]);
    assert(seq![dep].drop_last() =~= Seq::<Transaction>::empty());
    assert(l.last() == dis);
    assert(seq![dep].last() == dep);
    assert(crate::transaction::amount_sum(Seq::<Transaction>::empty()) == 0);
    assert(crate::transaction::amount_sum(seq![dep]) == d);
    assert(crate::transaction::amount_sum(l) == d);
    assert(has_amount(l)) by {
        assert(l[0].amount.is_some());
    }
}

} // verus!
