use std::collections::BTreeMap;
use std::collections::BTreeSet;

use vstd::prelude::*;

use crate::client::Client;
use crate::client_database::ClientDatabase;
use crate::client_database::stored_or_fresh;
use crate::tx::TransactionType;
use crate::tx::ValidTransaction;
use crate::tx_database::TransactionDatabase;

verus! {

/// The complete observable state of the engine: the client balance
/// records, the log of accepted deposits/withdrawals, and the set of
/// transaction ids currently under dispute.
pub ghost struct EngineView {
    pub clients: Map<u16, Client>,
    pub log: Map<u32, ValidTransaction>,
    pub disputes: Set<u32>,
}

/// Whether an exact value fits the fixed-point representation of a
/// balance.  A transition whose arithmetic would leave this range is
/// rejected as a silent no-op, like every other domain-level rejection.
pub open spec fn fits(v: int) -> bool {
    i128::MIN <= v <= i128::MAX
}

/// The amount carried by a validated deposit or withdrawal.
pub open spec fn amount_of(t: ValidTransaction) -> int {
    t.amount.unwrap() as int
}

/// Every transition rule begins by looking its client up, and the lookup
/// auto-creates a zero-balance record for a previously-unseen client.  A
/// rejected transaction therefore still leaves this creation behind.
pub open spec fn touch(s: EngineView, id: u16) -> EngineView {
    EngineView {
        clients: s.clients.insert(id, stored_or_fresh(s.clients, id)),
        log: s.log,
        disputes: s.disputes,
    }
}

/// Deposit: rejected if the transaction id was already used; otherwise
/// credits `available` and `total` and stores the record in the log.
pub open spec fn step_deposit(s: EngineView, t: ValidTransaction) -> EngineView {
    let c = stored_or_fresh(s.clients, t.client);
    let a = amount_of(t);
    if s.log.contains_key(t.tx) {
        touch(s, t.client)
    } else if fits(c.available + a) && fits(c.total + a) {
        let c2 = Client {
            id: c.id,
            available: (c.available + a) as i128,
            held: c.held,
            total: (c.total + a) as i128,
            locked: c.locked,
        };
        EngineView {
            clients: s.clients.insert(t.client, c2),
            log: s.log.insert(t.tx, t),
            disputes: s.disputes,
        }
    } else {
        touch(s, t.client)
    }
}

/// Withdrawal: rejected if the transaction id was already used or if the
/// amount exceeds the available funds; otherwise debits `available` and
/// `total` and stores the record in the log.
pub open spec fn step_withdrawal(s: EngineView, t: ValidTransaction) -> EngineView {
    let c = stored_or_fresh(s.clients, t.client);
    let a = amount_of(t);
    if s.log.contains_key(t.tx) {
        touch(s, t.client)
    } else if a <= c.available {
        if fits(c.total - a) {
            let c2 = Client {
                id: c.id,
                available: (c.available - a) as i128,
                held: c.held,
                total: (c.total - a) as i128,
                locked: c.locked,
            };
            EngineView {
                clients: s.clients.insert(t.client, c2),
                log: s.log.insert(t.tx, t),
                disputes: s.disputes,
            }
        } else {
            touch(s, t.client)
        }
    } else {
        touch(s, t.client)
    }
}

/// Dispute: rejected if the id is already disputed, unknown, or owned by a
/// different client.  A disputed deposit moves its amount from available
/// to held; a disputed withdrawal re-inflates held and total.
pub open spec fn step_dispute(s: EngineView, t: ValidTransaction) -> EngineView {
    let c = stored_or_fresh(s.clients, t.client);
    if s.disputes.contains(t.tx) {
        touch(s, t.client)
    } else if !s.log.contains_key(t.tx) {
        touch(s, t.client)
    } else {
        let d = s.log[t.tx];
        let a = amount_of(d);
        if d.client != t.client {
            touch(s, t.client)
        } else if d.tx_type == TransactionType::Deposit {
            if fits(c.available - a) && fits(c.held + a) {
                let c2 = Client {
                    id: c.id,
                    available: (c.available - a) as i128,
                    held: (c.held + a) as i128,
                    total: c.total,
                    locked: c.locked,
                };
                EngineView {
                    clients: s.clients.insert(t.client, c2),
                    log: s.log,
                    disputes: s.disputes.insert(t.tx),
                }
            } else {
                touch(s, t.client)
            }
        } else if d.tx_type == TransactionType::Withdrawal {
            if fits(c.held + a) && fits(c.total + a) {
                let c2 = Client {
                    id: c.id,
                    available: c.available,
                    held: (c.held + a) as i128,
                    total: (c.total + a) as i128,
                    locked: c.locked,
                };
                EngineView {
                    clients: s.clients.insert(t.client, c2),
                    log: s.log,
                    disputes: s.disputes.insert(t.tx),
                }
            } else {
                touch(s, t.client)
            }
        } else {
            touch(s, t.client)
        }
    }
}

/// Resolve: a no-op unless the id is currently disputed; returns the
/// disputed funds to their pre-dispute disposition and clears the flag.
pub open spec fn step_resolve(s: EngineView, t: ValidTransaction) -> EngineView {
    let c = stored_or_fresh(s.clients, t.client);
    if !s.disputes.contains(t.tx) {
        touch(s, t.client)
    } else if !s.log.contains_key(t.tx) {
        touch(s, t.client)
    } else {
        let d = s.log[t.tx];
        let a = amount_of(d);
        if d.tx_type == TransactionType::Deposit {
            if fits(c.available + a) && fits(c.held - a) {
                let c2 = Client {
                    id: c.id,
                    available: (c.available + a) as i128,
                    held: (c.held - a) as i128,
                    total: c.total,
                    locked: c.locked,
                };
                EngineView {
                    clients: s.clients.insert(t.client, c2),
                    log: s.log,
                    disputes: s.disputes.remove(t.tx),
                }
            } else {
                touch(s, t.client)
            }
        } else if d.tx_type == TransactionType::Withdrawal {
            if fits(c.held - a) && fits(c.total - a) {
                let c2 = Client {
                    id: c.id,
                    available: c.available,
                    held: (c.held - a) as i128,
                    total: (c.total - a) as i128,
                    locked: c.locked,
                };
                EngineView {
                    clients: s.clients.insert(t.client, c2),
                    log: s.log,
                    disputes: s.disputes.remove(t.tx),
                }
            } else {
                touch(s, t.client)
            }
        } else {
            EngineView {
                clients: s.clients.insert(t.client, c),
                log: s.log,
                disputes: s.disputes.remove(t.tx),
            }
        }
    }
}

/// Chargeback: a no-op unless the id is currently disputed; reverses the
/// disputed transaction, permanently locks the account, and removes the
/// record from the log so the id can never be disputed again.
pub open spec fn step_chargeback(s: EngineView, t: ValidTransaction) -> EngineView {
    let c = stored_or_fresh(s.clients, t.client);
    if !s.disputes.contains(t.tx) {
        touch(s, t.client)
    } else if !s.log.contains_key(t.tx) {
        touch(s, t.client)
    } else {
        let d = s.log[t.tx];
        let a = amount_of(d);
        if d.tx_type == TransactionType::Deposit {
            if fits(c.held - a) && fits(c.total - a) {
                let c2 = Client {
                    id: c.id,
                    available: c.available,
                    held: (c.held - a) as i128,
                    total: (c.total - a) as i128,
                    locked: true,
                };
                EngineView {
                    clients: s.clients.insert(t.client, c2),
                    log: s.log.remove(t.tx),
                    disputes: s.disputes.remove(t.tx),
                }
            } else {
                touch(s, t.client)
            }
        } else if d.tx_type == TransactionType::Withdrawal {
            if fits(c.held - a) && fits(c.available + a) {
                let c2 = Client {
                    id: c.id,
                    available: (c.available + a) as i128,
                    held: (c.held - a) as i128,
                    total: c.total,
                    locked: true,
                };
                EngineView {
                    clients: s.clients.insert(t.client, c2),
                    log: s.log.remove(t.tx),
                    disputes: s.disputes.remove(t.tx),
                }
            } else {
                touch(s, t.client)
            }
        } else {
            EngineView {
                clients: s.clients.insert(t.client, c),
                log: s.log.remove(t.tx),
                disputes: s.disputes.remove(t.tx),
            }
        }
    }
}

/// Whether a chargeback of the currently-disputed transaction `t.tx`
/// succeeds: the id must be disputed (hence still in the log) and the
/// reversal arithmetic must stay representable.
pub open spec fn chargeback_applies(s: EngineView, t: ValidTransaction) -> bool {
    let c = stored_or_fresh(s.clients, t.client);
    let d = s.log[t.tx];
    let a = amount_of(d);
    &&& s.disputes.contains(t.tx)
    &&& s.log.contains_key(t.tx)
    &&& if d.tx_type == TransactionType::Deposit {
        fits(c.held - a) && fits(c.total - a)
    } else if d.tx_type == TransactionType::Withdrawal {
        fits(c.held - a) && fits(c.available + a)
    } else {
        false
    }
}

/// One step of the engine: dispatch on the transaction kind.
pub open spec fn step(s: EngineView, t: ValidTransaction) -> EngineView {
    match t.tx_type {
        TransactionType::Deposit => step_deposit(s, t),
        TransactionType::Withdrawal => step_withdrawal(s, t),
        TransactionType::Dispute => step_dispute(s, t),
        TransactionType::Resolve => step_resolve(s, t),
        TransactionType::Chargeback => step_chargeback(s, t),
    }
}

/// The engine invariant: every client record is stored under its own id
/// and reconciled (`total == available + held`); every log record is a
/// well-formed deposit or withdrawal stored under its own id; and every
/// disputed id refers to a record still in the log.
pub open spec fn inv(s: EngineView) -> bool {
    &&& forall|id: u16| #[trigger]
        s.clients.contains_key(id) ==> s.clients[id].id == id && s.clients[id].balanced()
    &&& forall|x: u32| #[trigger]
        s.log.contains_key(x) ==> {
            let t = s.log[x];
            &&& t.tx == x
            &&& t.wf()
            &&& (t.tx_type == TransactionType::Deposit || t.tx_type
                == TransactionType::Withdrawal)
        }
    &&& forall|x: u32| #[trigger] s.disputes.contains(x) ==> s.log.contains_key(x)
}

/// The transaction engine: consumes one validated transaction at a time
/// and applies it atomically to the ledger store and the transaction log.
pub struct PaymentsEngine {
    pub client_db: ClientDatabase,
    pub tx_db: TransactionDatabase,
}

impl View for PaymentsEngine {
    type V = EngineView;

    open spec fn view(&self) -> EngineView {
        EngineView {
            clients: self.client_db@,
            log: self.tx_db.log(),
            disputes: self.tx_db.dispute_set(),
        }
    }
}

/// A fresh engine over empty stores.
pub fn get_payments_engine() -> (engine: PaymentsEngine)
    ensures
        engine@.clients == Map::<u16, Client>::empty(),
        engine@.log == Map::<u32, ValidTransaction>::empty(),
        engine@.disputes == Set::<u32>::empty(),
        engine.wf(),
{
    let engine = PaymentsEngine {
        client_db: ClientDatabase { db: BTreeMap::new() },
        tx_db: TransactionDatabase { db: BTreeMap::new(), disputes: BTreeSet::new() },
    };
    engine
}

/// The engine invariant subsumes the client store's own well-formedness,
/// so a caller holding a well-formed engine may take its snapshot.
pub proof fn lemma_client_db_wf(cd: &ClientDatabase, s: EngineView)
    requires
        s.clients == cd@,
        inv(s),
    ensures
        cd.wf(),
{
    assert forall|id: u16| #[trigger] cd@.contains_key(id) implies cd@[id].id == id by {
        assert(s.clients.contains_key(id));
    }
}

impl PaymentsEngine {
    pub open spec fn wf(&self) -> bool {
        inv(self@)
    }

    pub fn process_deposit(&mut self, tx: &ValidTransaction)
        requires
            old(self).wf(),
            tx.wf(),
            tx.tx_type == TransactionType::Deposit,
        ensures
            final(self)@ == step_deposit(old(self)@, *tx),
    {
        proof {
            lemma_client_db_wf(&self.client_db, self@);
        }
        let mut client = self.client_db.get_client(tx.client);
        if self.tx_db.is_tx_exists(&tx.tx) {
            return;
        }
        let amount = tx.amount.unwrap();
        if client.available <= i128::MAX - amount && client.total <= i128::MAX - amount {
            client.available = client.available + amount;
            client.total = client.total + amount;
            self.tx_db.add_tx(tx);
            self.client_db.update_client(&client);
            proof {
                assert(self.client_db@ =~= step_deposit(old(self)@, *tx).clients);
            }
        } else {
            return;
        }
    }

    pub fn process_withdrawal(&mut self, tx: &ValidTransaction)
        requires
            old(self).wf(),
            tx.wf(),
            tx.tx_type == TransactionType::Withdrawal,
        ensures
            final(self)@ == step_withdrawal(old(self)@, *tx),
    {
        proof {
            lemma_client_db_wf(&self.client_db, self@);
        }
        let mut client = self.client_db.get_client(tx.client);
        if self.tx_db.is_tx_exists(&tx.tx) {
            return;
        }
        let amount = tx.amount.unwrap();
        if amount <= client.available {
            if client.total >= i128::MIN + amount {
                client.available = client.available - amount;
                client.total = client.total - amount;
                self.tx_db.add_tx(tx);
                self.client_db.update_client(&client);
                proof {
                    assert(self.client_db@ =~= step_withdrawal(old(self)@, *tx).clients);
                }
            } else {
                return;
            }
        } else {
            return;
        }
    }

    pub fn process_dispute(&mut self, tx: &ValidTransaction)
        requires
            old(self).wf(),
            tx.wf(),
            tx.tx_type == TransactionType::Dispute,
        ensures
            final(self)@ == step_dispute(old(self)@, *tx),
    {
        proof {
            lemma_client_db_wf(&self.client_db, self@);
        }
        let mut client = self.client_db.get_client(tx.client);

        if self.tx_db.is_under_dispute(&tx.tx) {
            return;
        }
        let disputed_tx = match self.tx_db.get_tx(&tx.tx) {
            Some(val) => {
                self.tx_db.create_dispute(&tx.tx);
                val
            },
            None => {
                return;
            },
        };
        if disputed_tx.client != tx.client {
            // only the client's own transactions are disputable
            self.tx_db.remove_dispute(&tx.tx);
            proof {
                assert(self.tx_db.dispute_set() =~= old(self).tx_db.dispute_set());
            }
            return;
        }
        if disputed_tx.tx_type == TransactionType::Deposit {
            let amount = disputed_tx.amount.unwrap();
            if client.available >= i128::MIN + amount && client.held <= i128::MAX - amount {
                client.available = client.available - amount;
                client.held = client.held + amount;
            } else {
                self.tx_db.remove_dispute(&tx.tx);
                proof {
                    assert(self.tx_db.dispute_set() =~= old(self).tx_db.dispute_set());
                }
                return;
            }
        } else if disputed_tx.tx_type == TransactionType::Withdrawal {
            let amount = disputed_tx.amount.unwrap();
            if client.held <= i128::MAX - amount && client.total <= i128::MAX - amount {
                client.held = client.held + amount;
                client.total = client.total + amount;
            } else {
                self.tx_db.remove_dispute(&tx.tx);
                proof {
                    assert(self.tx_db.dispute_set() =~= old(self).tx_db.dispute_set());
                }
                return;
            }
        } else {
            self.tx_db.remove_dispute(&tx.tx);
            proof {
                assert(self.tx_db.dispute_set() =~= old(self).tx_db.dispute_set());
            }
            return;
        }
        self.client_db.update_client(&client);
        proof {
            assert(self.client_db@ =~= step_dispute(old(self)@, *tx).clients);
        }
    }

    pub fn process_resolve(&mut self, tx: &ValidTransaction)
        requires
            old(self).wf(),
            tx.wf(),
            tx.tx_type == TransactionType::Resolve,
        ensures
            final(self)@ == step_resolve(old(self)@, *tx),
    {
        proof {
            lemma_client_db_wf(&self.client_db, self@);
        }
        let mut client = self.client_db.get_client(tx.client);

        if !self.tx_db.is_under_dispute(&tx.tx) {
            return;
        }
        let disputed_tx = match self.tx_db.get_tx(&tx.tx) {
            Some(val) => val,
            None => {
                // a disputed id always refers to a record still in the log
                proof {
                    assert(old(self)@.disputes.contains(tx.tx));
                    assert(old(self)@.log.contains_key(tx.tx));
                    assert(false);
                }
                return;
            },
        };
        if disputed_tx.tx_type == TransactionType::Deposit {
            let amount = disputed_tx.amount.unwrap();
            if client.available <= i128::MAX - amount && client.held >= i128::MIN + amount {
                client.available = client.available + amount;
                client.held = client.held - amount;
            } else {
                return;
            }
        } else if disputed_tx.tx_type == TransactionType::Withdrawal {
            let amount = disputed_tx.amount.unwrap();
            if client.held >= i128::MIN + amount && client.total >= i128::MIN + amount {
                client.held = client.held - amount;
                client.total = client.total - amount;
            } else {
                return;
            }
        }
        self.tx_db.remove_dispute(&tx.tx);
        self.client_db.update_client(&client);
        proof {
            assert(self.client_db@ =~= step_resolve(old(self)@, *tx).clients);
        }
    }

    pub fn process_chargeback(&mut self, tx: &ValidTransaction)
        requires
            old(self).wf(),
            tx.wf(),
            tx.tx_type == TransactionType::Chargeback,
        ensures
            final(self)@ == step_chargeback(old(self)@, *tx),
    {
        proof {
            lemma_client_db_wf(&self.client_db, self@);
        }
        let mut client = self.client_db.get_client(tx.client);

        if !self.tx_db.is_under_dispute(&tx.tx) {
            return;
        }
        let disputed_tx = match self.tx_db.get_tx(&tx.tx) {
            Some(val) => val,
            None => {
                // a disputed id always refers to a record still in the log
                proof {
                    assert(old(self)@.disputes.contains(tx.tx));
                    assert(old(self)@.log.contains_key(tx.tx));
                    assert(false);
                }
                return;
            },
        };
        if disputed_tx.tx_type == TransactionType::Deposit {
            let amount = disputed_tx.amount.unwrap();
            if client.held >= i128::MIN + amount && client.total >= i128::MIN + amount {
                client.held = client.held - amount;
                client.total = client.total - amount;
                client.locked = true;
            } else {
                return;
            }
        } else if disputed_tx.tx_type == TransactionType::Withdrawal {
            let amount = disputed_tx.amount.unwrap();
            if client.held >= i128::MIN + amount && client.available <= i128::MAX - amount {
                client.held = client.held - amount;
                client.available = client.available + amount;
                client.locked = true;
            } else {
                return;
            }
        }
        self.tx_db.remove_dispute(&tx.tx);
        self.tx_db.remove_tx(&tx.tx);
        self.client_db.update_client(&client);
        proof {
            assert(self.client_db@ =~= step_chargeback(old(self)@, *tx).clients);
        }
    }

    /// Applies one already-validated transaction atomically; every
    /// domain-level rejection inside the transition rules is a silent
    /// no-op, so no error is returned to the caller.
    pub fn process_transaction(&mut self, tx: &ValidTransaction)
        requires
            old(self).wf(),
            tx.wf(),
        ensures
            final(self)@ == step(old(self)@, *tx),
            final(self).wf(),
    {
        match tx.tx_type {
            TransactionType::Deposit => self.process_deposit(tx),
            TransactionType::Withdrawal => self.process_withdrawal(tx),
            TransactionType::Dispute => self.process_dispute(tx),
            TransactionType::Resolve => self.process_resolve(tx),
            TransactionType::Chargeback => self.process_chargeback(tx),
        }
        proof {
            crate::properties::lemma_step_preserves_invariant(old(self)@, *tx);
        }
    }
}


} // verus!
