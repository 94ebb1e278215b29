use vstd::prelude::*;

verus! {

/// One client's balance record.
///
/// All monetary fields are exact fixed-point decimals held in units of
/// 1/10_000 of a whole currency unit, so a stored value of `10_000`
/// stands for `1.0`.
#[derive(Clone, Copy, Debug, PartialEq, Eq, Structural)]
pub struct Client {
    pub id: u16,
    /// Funds immediately usable by the client.
    pub available: i128,
    /// Funds frozen pending dispute resolution.
    pub held: i128,
    /// Sum of available and held funds.
    pub total: i128,
    /// Permanently frozen account flag, set by a chargeback.
    pub locked: bool,
}

impl Client {
    /// The reconciliation invariant: `total` is always the sum of
    /// `available` and `held`.
    pub open spec fn balanced(self) -> bool {
        self.total == self.available + self.held
    }

    /// The all-zero record a previously-unseen client starts from.
    pub open spec fn fresh(id: u16) -> Client {
        Client { id: id, available: 0, held: 0, total: 0, locked: false }
    }
}

} // verus!
