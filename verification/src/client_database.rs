use std::collections::BTreeMap;

use vstd::prelude::*;

use crate::client::Client;

verus! {

use vstd::std_specs::btree::increasing_seq;
use vstd::std_specs::btree::spec_btree_map_iter;
use vstd::std_specs::cmp::OrdSpec;
use vstd::std_specs::iter::IteratorSpec;

/// Keyed storage of client balance records.  A zero-balance record is
/// created automatically the first time an unseen client id is looked up,
/// and records are never deleted.
pub struct ClientDatabase {
    pub db: BTreeMap<u16, Client>,
}

/// The record the store answers for `id`: the stored one, or the fresh
/// zero-balance record that a first reference creates.
pub open spec fn stored_or_fresh(m: Map<u16, Client>, id: u16) -> Client {
    if m.contains_key(id) {
        m[id]
    } else {
        Client::fresh(id)
    }
}

impl View for ClientDatabase {
    type V = Map<u16, Client>;

    open spec fn view(&self) -> Map<u16, Client> {
        self.db@
    }
}

impl ClientDatabase {
    /// Every record is stored under its own client id.
    pub open spec fn wf(self) -> bool {
        forall|id: u16| #[trigger] self@.contains_key(id) ==> self@[id].id == id
    }

    /// Looks up a client record, creating and storing the zero-balance
    /// record on first reference.
    pub fn get_client(&mut self, client_id: u16) -> (c: Client)
        ensures
            c == stored_or_fresh(old(self)@, client_id),
            final(self)@ == old(self)@.insert(client_id, c),
            old(self).wf() ==> final(self).wf() && c.id == client_id,
    {
        let client_maybe = self.db.get(&client_id);
        if client_maybe.is_some() {
            let c = *client_maybe.unwrap();
            proof {
                assert(self@.insert(client_id, c) =~= self@);
            }
            c
        } else {
            let new_client = Client {
                id: client_id,
                available: 0,
                held: 0,
                total: 0,
                locked: false,
            };
            self.db.insert(client_id, new_client);
            new_client
        }
    }

    /// Idempotent upsert keyed by the record's own client id.
    pub fn update_client(&mut self, client: &Client)
        ensures
            final(self)@ == old(self)@.insert(client.id, *client),
            old(self).wf() ==> final(self).wf(),
    {
        self.db.insert(client.id, *client);
        proof {
            if old(self).wf() {
                assert forall|id: u16| #[trigger] self@.contains_key(id) implies self@[id].id
                    == id by {
                    if id != client.id {
                        assert(old(self)@.contains_key(id));
                    }
                }
            }
        }
    }

    /// The final ledger state: one record per known client, in ascending
    /// order of client id.
    pub fn snapshot(&self) -> (rows: Vec<Client>)
        requires
            self.wf(),
        ensures
            rows@.len() == self@.dom().len(),
            forall|i: int|
                0 <= i < rows@.len() ==> self@.contains_key(#[trigger] rows@[i].id)
                    && self@[rows@[i].id] == rows@[i],
            forall|k: u16| #[trigger]
                self@.contains_key(k) ==> exists|i: int|
                    0 <= i < rows@.len() && rows@[i].id == k,
            forall|i: int, j: int| 0 <= i < j < rows@.len() ==> rows@[i].id < rows@[j].id,
    {
        let mut rows: Vec<Client> = Vec::new();
        for kv in it: self.db.iter()
            invariant
                self.wf(),
                rows@.len() == it.index(),
                it.seq() == spec_btree_map_iter(&self.db).remaining(),
                forall|i: int| 0 <= i < it.index() ==> rows@[i] == *it.seq()[i].1,
        {
            rows.push(*kv.1);
        }
        proof {
            let m = self@;
            let v = spec_btree_map_iter(&self.db).remaining();
            assert(rows@.len() == v.len());
            assert forall|i: int| 0 <= i < rows@.len() implies m.contains_key(
                #[trigger] rows@[i].id,
            ) && m[rows@[i].id] == rows@[i] by {
                assert(m.contains_key(*v[i].0) && m[*v[i].0] == *v[i].1);
                assert(rows@[i] == *v[i].1);
                assert(rows@[i].id == *v[i].0);
            }
            assert forall|k: u16| #[trigger] m.contains_key(k) implies exists|i: int|
                0 <= i < rows@.len() && rows@[i].id == k by {
                assert(v.contains((&k, &m[k])));
                let i = choose|i: int| 0 <= i < v.len() && v[i] == (&k, &m[k]);
                assert(rows@[i] == *v[i].1);
                assert(rows@[i].id == k);
            }
            let ks = v.map_values(|kv: (&u16, &Client)| *kv.0);
            assert(increasing_seq(ks));
            assert forall|i: int, j: int| 0 <= i < j < rows@.len() implies rows@[i].id
                < rows@[j].id by {
                assert(ks[i].cmp_spec(&ks[j]) == core::cmp::Ordering::Less);
                assert(ks[i] == *v[i].0 && ks[j] == *v[j].0);
                assert(m.contains_key(*v[i].0) && m[*v[i].0] == *v[i].1);
                assert(m.contains_key(*v[j].0) && m[*v[j].0] == *v[j].1);
                assert(rows@[i] == *v[i].1 && rows@[j] == *v[j].1);
                assert(rows@[i].id == *v[i].0 && rows@[j].id == *v[j].0);
            }
        }
        rows
    }
}

} // verus!
