use vstd::prelude::*;
use crate::instrument::Token;

verus! {

/// Relies on chrono::Utc::now: the current wall-clock time in milliseconds since the epoch.
#[verifier::external_body]
pub(crate) fn now_millis() -> (r: i64) {
    chrono::Utc::now().timestamp_millis()
}

/// Total and available amounts of one token, in the token's smallest unit.
#[derive(Copy, Clone, Debug, PartialEq, Eq)]
pub struct Balance {
    pub time: i64,
    pub total: i64,
    pub available: i64,
}

/// A change that can be applied to a [`Balance`].
#[derive(Copy, Clone, Debug, PartialEq, Eq)]
pub struct BalanceDelta {
    pub total: i64,
    pub available: i64,
}

/// A [`Balance`] together with the token that it counts.
#[derive(Clone, Debug, PartialEq, Eq)]
pub struct TokenBalance {
    pub token: Token,
    pub balance: Balance,
}

impl Balance {
    /// `0 <= available <= total`.
    pub open spec fn wf(&self) -> bool {
        0 <= self.available <= self.total
    }

    /// The amounts that a balance holds, without its timestamp.
    pub open spec fn amounts(&self) -> (int, int) {
        (self.total as int, self.available as int)
    }

    pub fn new(total: i64, available: i64) -> (r: Balance)
        ensures
            r.total == total,
            r.available == available,
    {
        Balance { time: now_millis(), total, available }
    }

    /// Builds a balance stamped with the given time.
    pub fn at(time: i64, total: i64, available: i64) -> (r: Balance)
        ensures
            r == (Balance { time, total, available }),
    {
        Balance { time, total, available }
    }

    /// The part of the total that is not available: `total - available`.
    pub fn used(&self) -> (r: i64)
        requires
            self.wf(),
        ensures
            r == self.total - self.available,
    {
        self.total - self.available
    }

    /// Whether applying `delta` keeps `0 <= available <= total <= i64::MAX`.
    pub open spec fn accepts(&self, delta: BalanceDelta) -> bool {
        &&& 0 <= self.total + delta.total <= i64::MAX
        &&& 0 <= self.available + delta.available <= self.total + delta.total
    }

    /// Adds `delta` to both amounts. A delta that would break
    /// `0 <= available <= total` (or leave the integer range) is rejected and
    /// leaves the balance unchanged.
    pub fn apply(&mut self, delta: BalanceDelta) -> (r: Result<(), &'static str>)
        ensures
            r is Ok <==> old(self).accepts(delta),
            r is Ok ==> final(self).total == old(self).total + delta.total
                && final(self).available == old(self).available + delta.available,
            r is Err ==> *final(self) == *old(self),
            old(self).wf() ==> final(self).wf(),
    {
        let t = self.total as i128 + delta.total as i128;
        let a = self.available as i128 + delta.available as i128;
        if t < 0 || a < 0 || t > i64::MAX as i128 || a > t {
            return Err("Insufficient balance to apply the delta.");
        }
        self.total = t as i64;
        self.available = a as i64;
        self.time = now_millis();
        Ok(())
    }
}

impl BalanceDelta {
    pub fn new(total: i64, available: i64) -> (r: BalanceDelta)
        ensures
            r == (BalanceDelta { total, available }),
    {
        BalanceDelta { total, available }
    }

    /// The delta with both amounts negated.
    pub open spec fn negated(self) -> BalanceDelta {
        BalanceDelta { total: (-self.total) as i64, available: (-self.available) as i64 }
    }
}

impl TokenBalance {
    pub fn new(token: Token, balance: Balance) -> (r: TokenBalance)
        ensures
            r == (TokenBalance { token, balance }),
    {
        TokenBalance { token, balance }
    }
}

/// Applying a delta and then its negation gives back the same amounts: when
/// `apply(d)` turned `b` into `mid`, `apply` of the negated delta is accepted on
/// `mid` and restores `b`'s total and available amounts (only the timestamp may
/// differ).
pub proof fn lemma_apply_then_negated(b: Balance, d: BalanceDelta, mid: Balance)
    requires
        b.wf(),
        d.total > i64::MIN,
        d.available > i64::MIN,
        b.accepts(d),
        mid.total == b.total + d.total,
        mid.available == b.available + d.available,
    ensures
        mid.accepts(d.negated()),
        mid.total + d.negated().total == b.total,
        mid.available + d.negated().available == b.available,
{
}

} // verus!
