//! The ledger store: one account per client and the five operations that
//! move its funds.
use vstd::prelude::*;

verus! {

/// Largest magnitude that an account balance may reach, in ten-thousandths.
pub const BALANCE_LIMIT: i128 = 1_000_000_000_000_000_000_000_000_000_000;

/// A balance the ledger can hold.
pub open spec fn in_range(x: int) -> bool {
    -BALANCE_LIMIT <= x <= BALANCE_LIMIT
}

/// The account of one client. Amounts are ten-thousandths of a unit.
#[derive(Clone, Copy, Debug, PartialEq, Eq, Structural)]
pub struct Client {
    pub client: u16,
    pub available: i128,
    pub held: i128,
    pub total: i128,
    pub lock: bool,
}

/// The account with its three balances replaced.
pub open spec fn with_funds(c: Client, available: int, held: int, total: int, lock: bool) -> Client {
    Client {
        client: c.client,
        available: available as i128,
        held: held as i128,
        total: total as i128,
        lock,
    }
}

impl Client {
    /// Balances are in range and `total` is `available + held`.
    pub open spec fn wf(&self) -> bool {
        &&& in_range(self.available as int)
        &&& in_range(self.held as int)
        &&& self.total == self.available + self.held
    }

    pub open spec fn spec_new(client: u16, deposit: int) -> Client {
        Client { client, available: deposit as i128, held: 0, total: deposit as i128, lock: false }
    }

    /// Funds come in: `available` and `total` grow.
    pub open spec fn credited(self, amount: int) -> Client {
        with_funds(self, self.available + amount, self.held as int, self.total + amount, self.lock)
    }

    /// Funds go out: `available` and `total` shrink, unless `available` is short.
    pub open spec fn debited(self, amount: int) -> Client {
        if self.available < amount {
            self
        } else {
            with_funds(self, self.available - amount, self.held as int, self.total - amount, self.lock)
        }
    }

    /// Funds move from `available` to `held`.
    pub open spec fn holding(self, amount: int) -> Client {
        with_funds(self, self.available - amount, self.held + amount, self.total as int, self.lock)
    }

    /// Funds move back from `held` to `available`.
    pub open spec fn releasing(self, amount: int) -> Client {
        with_funds(self, self.available + amount, self.held - amount, self.total as int, self.lock)
    }

    /// Held funds leave the account, and the account locks.
    pub open spec fn seizing(self, amount: int) -> Client {
        with_funds(self, self.available as int, self.held - amount, self.total - amount, true)
    }

    /// Opens an account whose only funds are the first deposit.
    pub fn new(client: u16, deposit: u64) -> (c: Client)
        ensures
            c == Client::spec_new(client, deposit as int),
            c.wf(),
    {
        Client { client, total: deposit as i128, held: 0, available: deposit as i128, lock: false }
    }

    /// Adds a deposit to `available` and `total`.
    pub fn deposit(&mut self, deposit: u64)
        requires
            old(self).wf(),
            in_range(old(self).available + deposit),
        ensures
            *final(self) == old(self).credited(deposit as int),
            final(self).wf(),
    {
        self.available = self.available + deposit as i128;
        self.total = self.total + deposit as i128;
    }

    /// Takes a withdrawal from `available` and `total`; does nothing when
    /// `available` is less than the amount.
    pub fn withdrawal(&mut self, withdrawal: u64)
        requires
            old(self).wf(),
        ensures
            *final(self) == old(self).debited(withdrawal as int),
            final(self).wf(),
    {
        if self.available < withdrawal as i128 {
            return;
        }
        self.available = self.available - withdrawal as i128;
        self.total = self.total - withdrawal as i128;
    }

    /// Moves a disputed amount from `available` to `held`; `available` may
    /// become negative.
    pub fn dispute(&mut self, amount: i128)
        requires
            old(self).wf(),
            0 <= amount,
            in_range(old(self).available - amount),
            in_range(old(self).held + amount),
        ensures
            *final(self) == old(self).holding(amount as int),
            final(self).wf(),
    {
        self.available = self.available - amount;
        self.held = self.held + amount;
    }

    /// Moves a resolved amount from `held` back to `available`.
    pub fn resolve(&mut self, amount: i128)
        requires
            old(self).wf(),
            0 <= amount,
            in_range(old(self).available + amount),
            in_range(old(self).held - amount),
        ensures
            *final(self) == old(self).releasing(amount as int),
            final(self).wf(),
    {
        self.available = self.available + amount;
        self.held = self.held - amount;
    }

    /// Removes a charged-back amount from `held` and `total`, and locks the
    /// account.
    pub fn chargeback(&mut self, amount: i128)
        requires
            old(self).wf(),
            0 <= amount,
            in_range(old(self).held - amount),
        ensures
            *final(self) == old(self).seizing(amount as int),
            final(self).wf(),
    {
        self.held = self.held - amount;
        self.total = self.total - amount;
        self.lock = true;
    }
}

} // verus!
