use std::collections::BTreeMap;
use std::collections::BTreeSet;

use vstd::prelude::*;

use crate::tx::ValidTransaction;

verus! {

/// Keyed storage of previously accepted deposit and withdrawal records,
/// together with the set of transaction ids currently under dispute.
pub struct TransactionDatabase {
    pub db: BTreeMap<u32, ValidTransaction>,
    pub disputes: BTreeSet<u32>,
}

impl TransactionDatabase {
    /// The accepted transaction records, keyed by transaction id.
    pub open spec fn log(self) -> Map<u32, ValidTransaction> {
        self.db@
    }

    /// The transaction ids currently flagged as disputed.
    pub open spec fn dispute_set(self) -> Set<u32> {
        self.disputes@
    }

    /// Looks up one accepted record by transaction id.
    pub fn get_tx(&mut self, tx_id: &u32) -> (r: Option<ValidTransaction>)
        ensures
            *final(self) == *old(self),
            r == if old(self).log().contains_key(*tx_id) {
                Some(old(self).log()[*tx_id])
            } else {
                None::<ValidTransaction>
            },
    {
        match self.db.get(tx_id) {
            Some(t) => Some(*t),
            None => None,
        }
    }

    /// Stores one accepted record under its own transaction id.
    pub fn add_tx(&mut self, tx: &ValidTransaction)
        ensures
            final(self).log() == old(self).log().insert(tx.tx, *tx),
            final(self).dispute_set() == old(self).dispute_set(),
    {
        self.db.insert(tx.tx, *tx);
    }

    /// Removes one record, so that its id can never be referenced again.
    pub fn remove_tx(&mut self, tx_id: &u32)
        ensures
            final(self).log() == old(self).log().remove(*tx_id),
            final(self).dispute_set() == old(self).dispute_set(),
    {
        self.db.remove(tx_id);
    }

    /// Whether an accepted record exists for this transaction id.
    pub fn is_tx_exists(&mut self, tx_id: &u32) -> (r: bool)
        ensures
            *final(self) == *old(self),
            r == old(self).log().contains_key(*tx_id),
    {
        let tx_maybe = self.get_tx(tx_id);
        if tx_maybe.is_some() {
            true
        } else {
            false
        }
    }

    /// Whether this transaction id is currently flagged as disputed.
    pub fn is_under_dispute(&mut self, tx_id: &u32) -> (r: bool)
        ensures
            *final(self) == *old(self),
            r == old(self).dispute_set().contains(*tx_id),
    {
        let val_maybe = self.disputes.get(tx_id);
        if val_maybe.is_some() {
            true
        } else {
            false
        }
    }

    /// Flags a transaction id as disputed.
    pub fn create_dispute(&mut self, tx_id: &u32)
        ensures
            final(self).dispute_set() == old(self).dispute_set().insert(*tx_id),
            final(self).log() == old(self).log(),
    {
        self.disputes.insert(*tx_id);
    }

    /// Clears the disputed flag of a transaction id.
    pub fn remove_dispute(&mut self, tx_id: &u32)
        ensures
            final(self).dispute_set() == old(self).dispute_set().remove(*tx_id),
            final(self).log() == old(self).log(),
    {
        self.disputes.remove(tx_id);
    }
}

} // verus!
