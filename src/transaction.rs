//! The records that the engine replays.
use vstd::prelude::*;

verus! {

/// The five kinds of record.
#[derive(Clone, Copy, Debug, PartialEq, Eq, Structural)]
pub enum TransactionType {
    Deposit,
    Withdrawal,
    Dispute,
    Resolve,
    Chargeback,
}

/// One record of the input. `amount` is in ten-thousandths of a unit; it is
/// present on deposits and withdrawals and absent on the other kinds.
/// `dispute` is set while the record is under an open dispute.
#[derive(Clone, Copy, Debug)]
pub struct Transaction {
    pub t: TransactionType,
    pub client_id: u16,
    pub tx: u32,
    pub amount: Option<u64>,
    pub dispute: bool,
}

impl Transaction {
    /// A fresh record, not under dispute.
    pub fn new(t: TransactionType, client_id: u16, tx: u32, amount: Option<u64>) -> (r: Self)
        ensures
            r == (Transaction { t, client_id, tx, amount, dispute: false }),
    {
        Self { t, client_id, tx, amount, dispute: false }
    }
}

/// The amount a record carries, zero when it has none.
pub open spec fn amount_of(r: Transaction) -> int {
    match r.amount {
        Some(a) => a as int,
        None => 0,
    }
}

/// A deposit or withdrawal without its amount.
pub open spec fn is_malformed(r: Transaction) -> bool {
    (r.t == TransactionType::Deposit || r.t == TransactionType::Withdrawal) && r.amount.is_none()
}

/// Sum of the amounts of the records.
pub open spec fn amount_sum(s: Seq<Transaction>) -> int
    decreases s.len(),
{
    if s.len() == 0 {
        0
    } else {
        amount_sum(s.drop_last()) + amount_of(s.last())
    }
}

/// Some record carries an amount.
pub open spec fn has_amount(s: Seq<Transaction>) -> bool {
    exists|i: int| 0 <= i < s.len() && (#[trigger] s[i]).amount.is_some()
}

/// Every record that carries an amount is under dispute.
pub open spec fn all_disputed(s: Seq<Transaction>) -> bool {
    forall|i: int| 0 <= i < s.len() && (#[trigger] s[i]).amount.is_some() ==> s[i].dispute
}

/// The record with its dispute flag set to `flag` if it carries an amount.
pub open spec fn flagged(r: Transaction, flag: bool) -> Transaction {
    if r.amount.is_some() {
        Transaction { t: r.t, client_id: r.client_id, tx: r.tx, amount: r.amount, dispute: flag }
    } else {
        r
    }
}

/// Every record that carries an amount gets its dispute flag set to `flag`.
pub open spec fn set_disputed(s: Seq<Transaction>, flag: bool) -> Seq<Transaction> {
    s.map_values(|r: Transaction| flagged(r, flag))
}

/// The sum never shrinks as records are appended.
pub proof fn lemma_amount_sum_prefix(s: Seq<Transaction>, i: int)
    requires
        0 <= i <= s.len(),
    ensures
        amount_sum(s.take(i)) <= amount_sum(s),
        0 <= amount_sum(s),
    decreases s.len(),
{
    if s.len() > 0 {
        lemma_amount_sum_prefix(s.drop_last(), if i == s.len() { 0 } else { i });
        if i < s.len() {
            assert(s.drop_last().take(i) =~= s.take(i));
        } else {
            assert(s.take(i) =~= s);
        }
    }
}

/// Bound past which a sum of amounts can never fit a balance.
pub const SUM_CAP: u128 = 2_000_000_000_000_000_000_000_000_000_000;

/// Adds up the amounts of the records, or gives `None` once the sum passes
/// `SUM_CAP`.
pub fn total_amount(list: &Vec<Transaction>) -> (r: Option<u128>)
    ensures
        match r {
            Some(v) => v == amount_sum(list@) && v <= SUM_CAP,
            None => amount_sum(list@) > SUM_CAP,
        },
{
    let mut sum: u128 = 0;
    let mut i: usize = 0;
    while i < list.len()
        invariant
            0 <= i <= list.len(),
            sum == amount_sum(list@.take(i as int)),
            sum <= SUM_CAP,
        decreases list.len() - i,
    {
        let r = list[i];
        assert(list@.take(i + 1).drop_last() =~= list@.take(i as int));
        match r.amount {
            Some(a) => {
                sum = sum + a as u128;
            },
            None => {},
        }
        i += 1;
        if sum > SUM_CAP {
            proof {
                lemma_amount_sum_prefix(list@, i as int);
            }
            return None;
        }
    }
    assert(list@.take(i as int) =~= list@);
    Some(sum)
}

/// Whether some record carries an amount.
pub fn any_amount(list: &Vec<Transaction>) -> (r: bool)
    ensures
        r == has_amount(list@),
{
    let mut i: usize = 0;
    while i < list.len()
        invariant
            0 <= i <= list.len(),
            forall|j: int| 0 <= j < i ==> (#[trigger] list@[j]).amount.is_none(),
        decreases list.len() - i,
    {
        if list[i].amount.is_some() {
            return true;
        }
        i += 1;
    }
    false
}

/// Whether every record that carries an amount is under dispute.
pub fn every_disputed(list: &Vec<Transaction>) -> (r: bool)
    ensures
        r == all_disputed(list@),
{
    let mut i: usize = 0;
    while i < list.len()
        invariant
            0 <= i <= list.len(),
            forall|j: int| 0 <= j < i && (#[trigger] list@[j]).amount.is_some() ==> list@[j].dispute,
        decreases list.len() - i,
    {
        if list[i].amount.is_some() && !list[i].dispute {
            return false;
        }
        i += 1;
    }
    true
}

/// Sets the dispute flag of every record that carries an amount.
pub fn mark_disputed(list: &mut Vec<Transaction>, flag: bool)
    ensures
        final(list)@ == set_disputed(old(list)@, flag),
{
    let ghost before = list@;
    let mut i: usize = 0;
    while i < list.len()
        invariant
            0 <= i <= list.len(),
            list@.len() == before.len(),
            forall|j: int| 0 <= j < i ==> #[trigger] list@[j] == flagged(before[j], flag),
            forall|j: int| i <= j < list@.len() ==> #[trigger] list@[j] == before[j],
        decreases list.len() - i,
    {
        let r = list[i];
        if r.amount.is_some() {
            let updated = Transaction {
                t: r.t,
                client_id: r.client_id,
                tx: r.tx,
                amount: r.amount,
                dispute: flag,
            };
            list.set(i, updated);
        }
        i += 1;
    }
    assert(list@ =~= set_disputed(before, flag));
}

} // verus!
