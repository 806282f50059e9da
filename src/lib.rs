//! A replay engine for client ledgers: deposits, withdrawals and the
//! dispute / resolve / chargeback protocol, with money held as integer
//! ten-thousandths of a currency unit.
pub mod client;
pub mod decode;
pub mod engine;
pub mod laws;
pub mod transaction;

use vstd::prelude::*;
use crate::engine::{replay, PaymentEngine};
use crate::transaction::{is_malformed, Transaction};

verus! {

/// Replays the records in order on a fresh engine. Fails with the id of the
/// first deposit or withdrawal that lacks its amount; nothing can be derived
/// from a log that holds one.
pub fn run_transaction(data: Vec<Transaction>) -> (r: Result<PaymentEngine, u32>)
    ensures
        match r {
            Ok(e) => {
                &&& e.wf()
                &&& forall|i: int| 0 <= i < data@.len() ==> !is_malformed(#[trigger] data@[i])
                &&& (e.ledger(), e.history()) == replay(Map::empty(), Map::empty(), data@)
            },
            Err(id) => exists|i: int|
                0 <= i < data@.len() && is_malformed(#[trigger] data@[i]) && data@[i].tx == id
                    && forall|j: int| 0 <= j < i ==> !is_malformed(#[trigger] data@[j]),
        },
{
    let mut engine = PaymentEngine::new();
    let mut i: usize = 0;
    while i < data.len()
        invariant
            0 <= i <= data@.len(),
            engine.wf(),
            forall|j: int| 0 <= j < i ==> !is_malformed(#[trigger] data@[j]),
            (engine.ledger(), engine.history()) == replay(Map::empty(), Map::empty(), data@.take(i as int)),
        decreases data@.len() - i,
    {
        let t = data[i];
        assert(data@.take(i + 1).drop_last() =~= data@.take(i as int));
        let o = engine.run_transaction(&t);
        if o == crate::engine::Outcome::Malformed {
            assert(is_malformed(data@[i as int]));
            return Err(t.tx);
        }
        i += 1;
    }
    assert(data@.take(i as int) =~= data@);
    Ok(engine)
}

} // verus!
