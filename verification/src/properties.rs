use vstd::prelude::*;

use crate::client_database::stored_or_fresh;
use crate::payments_engine::EngineView;
use crate::payments_engine::amount_of;
use crate::payments_engine::chargeback_applies;
use crate::payments_engine::fits;
use crate::payments_engine::inv;
use crate::payments_engine::step;
use crate::payments_engine::step_chargeback;
use crate::payments_engine::step_deposit;
use crate::payments_engine::step_dispute;
use crate::payments_engine::step_resolve;
use crate::payments_engine::step_withdrawal;
use crate::payments_engine::touch;
use crate::tx::TransactionType;
use crate::tx::ValidTransaction;

verus! {

/// Auto-creating a client record preserves the engine invariant: the
/// created record is reconciled and stored under its own id.
proof fn lemma_touch_preserves_invariant(s: EngineView, id: u16)
    requires
        inv(s),
    ensures
        inv(touch(s, id)),
{
    let s2 = touch(s, id);
    assert forall|i: u16| #[trigger] s2.clients.contains_key(i) implies s2.clients[i].id == i
        && s2.clients[i].balanced() by {
        if i != id {
            assert(s.clients.contains_key(i));
        }
    }
}

proof fn lemma_deposit_preserves_invariant(s: EngineView, t: ValidTransaction)
    requires
        inv(s),
        t.wf(),
        t.tx_type == TransactionType::Deposit,
    ensures
        inv(step_deposit(s, t)),
{
    let c = stored_or_fresh(s.clients, t.client);
    let a = amount_of(t);
    if !s.log.contains_key(t.tx) && fits(c.available + a) && fits(c.total + a) {
        let s2 = step_deposit(s, t);
        assert forall|i: u16| #[trigger] s2.clients.contains_key(i) implies s2.clients[i].id == i
            && s2.clients[i].balanced() by {
            if i != t.client {
                assert(s.clients.contains_key(i));
            }
        }
        assert forall|x: u32| #[trigger] s2.log.contains_key(x) implies {
            let r = s2.log[x];
            &&& r.tx == x
            &&& r.wf()
            &&& (r.tx_type == TransactionType::Deposit || r.tx_type
                == TransactionType::Withdrawal)
        } by {
            if x != t.tx {
                assert(s.log.contains_key(x));
            }
        }
        assert forall|x: u32| #[trigger] s2.disputes.contains(x) implies s2.log.contains_key(
            x,
        ) by {
            assert(s.log.contains_key(x));
        }
    } else {
        lemma_touch_preserves_invariant(s, t.client);
    }
}

proof fn lemma_withdrawal_preserves_invariant(s: EngineView, t: ValidTransaction)
    requires
        inv(s),
        t.wf(),
        t.tx_type == TransactionType::Withdrawal,
    ensures
        inv(step_withdrawal(s, t)),
{
    let c = stored_or_fresh(s.clients, t.client);
    let a = amount_of(t);
    if !s.log.contains_key(t.tx) && a <= c.available && fits(c.total - a) {
        let s2 = step_withdrawal(s, t);
        assert forall|i: u16| #[trigger] s2.clients.contains_key(i) implies s2.clients[i].id == i
            && s2.clients[i].balanced() by {
            if i != t.client {
                assert(s.clients.contains_key(i));
            }
        }
        assert forall|x: u32| #[trigger] s2.log.contains_key(x) implies {
            let r = s2.log[x];
            &&& r.tx == x
            &&& r.wf()
            &&& (r.tx_type == TransactionType::Deposit || r.tx_type
                == TransactionType::Withdrawal)
        } by {
            if x != t.tx {
                assert(s.log.contains_key(x));
            }
        }
        assert forall|x: u32| #[trigger] s2.disputes.contains(x) implies s2.log.contains_key(
            x,
        ) by {
            assert(s.log.contains_key(x));
        }
    } else {
        lemma_touch_preserves_invariant(s, t.client);
    }
}

proof fn lemma_dispute_preserves_invariant(s: EngineView, t: ValidTransaction)
    requires
        inv(s),
        t.wf(),
        t.tx_type == TransactionType::Dispute,
    ensures
        inv(step_dispute(s, t)),
{
    let s2 = step_dispute(s, t);
    if s.disputes.contains(t.tx) || !s.log.contains_key(t.tx) {
        lemma_touch_preserves_invariant(s, t.client);
    } else {
        let d = s.log[t.tx];
        let c = stored_or_fresh(s.clients, t.client);
        let a = amount_of(d);
        if d.client == t.client && (d.tx_type == TransactionType::Deposit || d.tx_type
            == TransactionType::Withdrawal) && s2.disputes == s.disputes.insert(t.tx) {
            assert forall|i: u16| #[trigger] s2.clients.contains_key(i) implies s2.clients[i].id
                == i && s2.clients[i].balanced() by {
                if i != t.client {
                    assert(s.clients.contains_key(i));
                }
            }
            assert forall|x: u32| #[trigger] s2.disputes.contains(x) implies s2.log.contains_key(
                x,
            ) by {
                if x != t.tx {
                    assert(s.disputes.contains(x));
                }
            }
        } else {
            lemma_touch_preserves_invariant(s, t.client);
        }
    }
}

proof fn lemma_resolve_preserves_invariant(s: EngineView, t: ValidTransaction)
    requires
        inv(s),
        t.wf(),
        t.tx_type == TransactionType::Resolve,
    ensures
        inv(step_resolve(s, t)),
{
    let s2 = step_resolve(s, t);
    if !s.disputes.contains(t.tx) || !s.log.contains_key(t.tx) {
        lemma_touch_preserves_invariant(s, t.client);
    } else if s2.disputes == s.disputes.remove(t.tx) {
        assert forall|i: u16| #[trigger] s2.clients.contains_key(i) implies s2.clients[i].id == i
            && s2.clients[i].balanced() by {
            if i != t.client {
                assert(s.clients.contains_key(i));
            }
        }
        assert forall|x: u32| #[trigger] s2.disputes.contains(x) implies s2.log.contains_key(
            x,
        ) by {
            assert(s.disputes.contains(x));
        }
    } else {
        lemma_touch_preserves_invariant(s, t.client);
    }
}

proof fn lemma_chargeback_preserves_invariant(s: EngineView, t: ValidTransaction)
    requires
        inv(s),
        t.wf(),
        t.tx_type == TransactionType::Chargeback,
    ensures
        inv(step_chargeback(s, t)),
{
    let s2 = step_chargeback(s, t);
    if !s.disputes.contains(t.tx) || !s.log.contains_key(t.tx) {
        lemma_touch_preserves_invariant(s, t.client);
    } else if s2.disputes == s.disputes.remove(t.tx) && s2.log == s.log.remove(t.tx) {
        assert forall|i: u16| #[trigger] s2.clients.contains_key(i) implies s2.clients[i].id == i
            && s2.clients[i].balanced() by {
            if i != t.client {
                assert(s.clients.contains_key(i));
            }
        }
        assert forall|x: u32| #[trigger] s2.log.contains_key(x) implies {
            let r = s2.log[x];
            &&& r.tx == x
            &&& r.wf()
            &&& (r.tx_type == TransactionType::Deposit || r.tx_type
                == TransactionType::Withdrawal)
        } by {
            assert(s.log.contains_key(x));
        }
        assert forall|x: u32| #[trigger] s2.disputes.contains(x) implies s2.log.contains_key(
            x,
        ) by {
            assert(s.disputes.contains(x));
            assert(s.log.contains_key(x));
        }
    } else {
        lemma_touch_preserves_invariant(s, t.client);
    }
}

/// Auto-creating a client record changes no lookup result: the record any
/// client id resolves to is the same before and after.
pub proof fn lemma_touch_preserves_lookups(s: EngineView, id: u16)
    ensures
        forall|x: u16| #[trigger]
            stored_or_fresh(touch(s, id).clients, x) == stored_or_fresh(s.clients, x),
{
    assert forall|x: u16| #[trigger]
        stored_or_fresh(touch(s, id).clients, x) == stored_or_fresh(s.clients, x) by {
        if x != id {
            assert(touch(s, id).clients.contains_key(x) == s.clients.contains_key(x));
        }
    }
}

/// The ledger invariant holds after every processed transaction: for
/// every client, `total == available + held`, every log record is a
/// well-formed deposit or withdrawal stored under its own id, and every
/// disputed id refers to a record still in the log.
pub proof fn lemma_step_preserves_invariant(s: EngineView, t: ValidTransaction)
    requires
        inv(s),
        t.wf(),
    ensures
        inv(step(s, t)),
{
    match t.tx_type {
        TransactionType::Deposit => lemma_deposit_preserves_invariant(s, t),
        TransactionType::Withdrawal => lemma_withdrawal_preserves_invariant(s, t),
        TransactionType::Dispute => lemma_dispute_preserves_invariant(s, t),
        TransactionType::Resolve => lemma_resolve_preserves_invariant(s, t),
        TransactionType::Chargeback => lemma_chargeback_preserves_invariant(s, t),
    }
}

/// Replaying a deposit or withdrawal with a previously-used transaction id
/// never changes any balance, nor the log or the dispute set.
pub proof fn lemma_duplicate_id_is_no_op(s: EngineView, t: ValidTransaction)
    requires
        t.tx_type == TransactionType::Deposit || t.tx_type == TransactionType::Withdrawal,
        s.log.contains_key(t.tx),
    ensures
        forall|id: u16| #[trigger]
            stored_or_fresh(step(s, t).clients, id) == stored_or_fresh(s.clients, id),
        step(s, t).log == s.log,
        step(s, t).disputes == s.disputes,
{
    lemma_touch_preserves_lookups(s, t.client);
}

/// A withdrawal of strictly more than the available funds leaves every
/// client record, the log and the dispute set exactly as they were.
pub proof fn lemma_insufficient_funds_is_no_op(s: EngineView, t: ValidTransaction)
    requires
        t.tx_type == TransactionType::Withdrawal,
        t.wf(),
        amount_of(t) > stored_or_fresh(s.clients, t.client).available,
    ensures
        forall|id: u16| #[trigger]
            stored_or_fresh(step(s, t).clients, id) == stored_or_fresh(s.clients, id),
        step(s, t).log == s.log,
        step(s, t).disputes == s.disputes,
{
    lemma_touch_preserves_lookups(s, t.client);
}

/// For any accepted deposit, a dispute followed by a resolve on its id
/// returns every balance to exactly its pre-dispute value and restores
/// the log and the dispute set.
pub proof fn lemma_dispute_resolve_round_trip(s: EngineView, c: u16, x: u32)
    requires
        inv(s),
        s.log.contains_key(x),
        s.log[x].tx_type == TransactionType::Deposit,
        s.log[x].client == c,
        !s.disputes.contains(x),
    ensures
        ({
            let dispute = ValidTransaction {
                tx_type: TransactionType::Dispute,
                client: c,
                tx: x,
                amount: None,
            };
            let resolve = ValidTransaction {
                tx_type: TransactionType::Resolve,
                client: c,
                tx: x,
                amount: None,
            };
            let s2 = step(step(s, dispute), resolve);
            &&& forall|id: u16| #[trigger]
                stored_or_fresh(s2.clients, id) == stored_or_fresh(s.clients, id)
            &&& s2.log == s.log
            &&& s2.disputes == s.disputes
        }),
{
    let dispute = ValidTransaction {
        tx_type: TransactionType::Dispute,
        client: c,
        tx: x,
        amount: None,
    };
    let resolve = ValidTransaction {
        tx_type: TransactionType::Resolve,
        client: c,
        tx: x,
        amount: None,
    };
    let d = s.log[x];
    let a = amount_of(d);
    let c0 = stored_or_fresh(s.clients, c);
    let s1 = step(s, dispute);
    let s2 = step(s1, resolve);
    if fits(c0.available - a) && fits(c0.held + a) {
        let cr = stored_or_fresh(s2.clients, c);
        assert(cr == c0);
        assert forall|id: u16| #[trigger]
            stored_or_fresh(s2.clients, id) == stored_or_fresh(s.clients, id) by {
            if id != c {
                assert(s2.clients.contains_key(id) == s.clients.contains_key(id));
            }
        }
        assert(s2.disputes =~= s.disputes);
    } else {
        lemma_touch_preserves_lookups(s, c);
        lemma_touch_preserves_lookups(s1, c);
    }
}

/// A successful chargeback locks the account, clears the dispute and
/// removes the charged-back transaction from the log, so that any second
/// dispute against the same id is a no-op.
pub proof fn lemma_chargeback_locks_and_removes(s: EngineView, t: ValidTransaction, c2: u16)
    requires
        inv(s),
        t.tx_type == TransactionType::Chargeback,
        chargeback_applies(s, t),
    ensures
        ({
            let s1 = step(s, t);
            let re_dispute = ValidTransaction {
                tx_type: TransactionType::Dispute,
                client: c2,
                tx: t.tx,
                amount: None,
            };
            &&& stored_or_fresh(s1.clients, t.client).locked
            &&& !s1.log.contains_key(t.tx)
            &&& !s1.disputes.contains(t.tx)
            &&& forall|id: u16| #[trigger]
                stored_or_fresh(step(s1, re_dispute).clients, id) == stored_or_fresh(
                    s1.clients,
                    id,
                )
            &&& step(s1, re_dispute).log == s1.log
            &&& step(s1, re_dispute).disputes == s1.disputes
        }),
{
    let s1 = step(s, t);
    assert(stored_or_fresh(s1.clients, t.client).locked);
    lemma_touch_preserves_lookups(s1, c2);
}


} // verus!
