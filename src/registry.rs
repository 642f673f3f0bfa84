//! The transactions in flight, each found by its id; events are routed to the
//! transaction they name.
use vstd::prelude::*;

use crate::error::SchematicError;
use crate::transaction::{
    acts, done_step, emitted, hung_packets, next_actions, next_emitted, next_state, outputs_done, Action, Event, Transaction,
    TxModel, TxState,
};

verus! {

/// The transactions in flight.
#[derive(Debug)]
pub struct TransactionRegistry {
    transactions: Vec<Transaction>,
}

/// The position of the first transaction with id `id`.
pub open spec fn position_of(txs: Seq<TxModel>, id: u128) -> Option<int> {
    if exists|k: int| 0 <= k < txs.len() && txs[k].id == id {
        Some(choose|k: int| 0 <= k < txs.len() && txs[k].id == id && forall|j: int| 0 <= j < k ==> txs[j].id != id)
    } else {
        None
    }
}

impl TransactionRegistry {
    /// The models of the transactions in flight, in the order they were added.
    pub closed spec fn txs(&self) -> Seq<TxModel> {
        self.transactions@.map_values(|t: Transaction| t@)
    }

    /// Whether every transaction in flight is well formed.
    pub open spec fn wf(&self) -> bool {
        forall|k: int| 0 <= k < self.txs().len() ==> (#[trigger] self.txs()[k]).wf()
    }

    /// An empty registry.
    pub fn new() -> (r: TransactionRegistry)
        ensures
            r.txs().len() == 0,
            r.wf(),
    {
        let r = TransactionRegistry { transactions: Vec::new() };
        assert(r.txs() =~= Seq::<TxModel>::empty());
        r
    }

    /// Adds a transaction after the others.
    pub fn insert(&mut self, tx: Transaction)
        requires
            old(self).wf(),
            tx@.wf(),
        ensures
            final(self).txs() == old(self).txs().push(tx@),
            final(self).wf(),
    {
        let ghost before = self.transactions@;
        self.transactions.push(tx);
        assert(self.txs() =~= before.map_values(|t: Transaction| t@).push(self.transactions@.last()@));
    }

    /// The position of the first transaction with id `id`.
    pub fn find(&self, id: u128) -> (r: Option<usize>)
        ensures
            r is Some <==> position_of(self.txs(), id) is Some,
            r is Some ==> r->Some_0 as int == position_of(self.txs(), id)->Some_0,
            r is Some ==> r->Some_0 < self.txs().len(),
    {
        let mut k: usize = 0;
        while k < self.transactions.len()
            invariant
                k <= self.transactions.len(),
                forall|j: int| 0 <= j < k ==> self.txs()[j].id != id,
            decreases self.transactions.len() - k,
        {
            if self.transactions[k].id() == id {
                proof {
                    let c = position_of(self.txs(), id)->Some_0;
                    assert(self.txs()[k as int].id == id);
                    assert(c == k as int) by {
                        if c < k as int {
                        } else if c > k as int {
                        }
                    }
                }
                return Some(k);
            }
            k = k + 1;
        }
        None
    }

    /// Hands `event` to the transaction with id `id`, and returns what its driver must do;
    /// an event for an unknown transaction is refused.
    pub fn dispatch(&mut self, id: u128, event: Event) -> (r: Result<Vec<Action>, SchematicError>)
        requires
            old(self).wf(),
        ensures
            final(self).wf(),
            position_of(old(self).txs(), id) is None <==> r is Err,
            r is Err ==> r->Err_0 == SchematicError::TransactionNotFound(id) && final(self).txs() == old(self).txs(),
            r is Ok ==> {
                let k = position_of(old(self).txs(), id)->Some_0;
                &&& final(self).txs().len() == old(self).txs().len()
                &&& forall|j: int| 0 <= j < old(self).txs().len() && j != k ==> #[trigger] final(self).txs()[j] == old(self).txs()[j]
                &&& old(self).txs()[k].grows_to(final(self).txs()[k])
                &&& done_step(r->Ok_0@, old(self).txs()[k], final(self).txs()[k])
                &&& final(self).txs()[k] == next_state(old(self).txs()[k], event@)
                &&& acts(r->Ok_0@) == next_actions(old(self).txs()[k], event@)
                &&& emitted(r->Ok_0@) == next_emitted(old(self).txs()[k], event@)
            },
    {
        match self.find(id) {
            None => Err(SchematicError::TransactionNotFound(id)),
            Some(k) => {
                let ghost before = self.transactions@;
                assert(self.transactions@[k as int]@ == self.txs()[k as int]);
                let actions = self.transactions[k].handle_event(event);
                assert(self.transactions@ == before.update(k as int, self.transactions@[k as int]));
                assert(self.txs() =~= before.map_values(|t: Transaction| t@).update(k as int, self.transactions@[k as int]@));
                Ok(actions)
            },
        }
    }

    /// Removes the first transaction with id `id`, if any, and returns it.
    pub fn remove(&mut self, id: u128) -> (r: Option<Transaction>)
        requires
            old(self).wf(),
        ensures
            final(self).wf(),
            position_of(old(self).txs(), id) is None <==> r is None,
            r is None ==> final(self).txs() == old(self).txs(),
            r is Some ==> r->Some_0@ == old(self).txs()[position_of(old(self).txs(), id)->Some_0]
                && final(self).txs() == old(self).txs().remove(position_of(old(self).txs(), id)->Some_0),
    {
        match self.find(id) {
            None => None,
            Some(k) => {
                let ghost before = self.transactions@;
                let tx = self.transactions.remove(k);
                assert(self.txs() =~= before.map_values(|t: Transaction| t@).remove(k as int));
                Some(tx)
            },
        }
    }

    /// Records `now` as the time of the last event of the transaction with id `id`; an
    /// unknown transaction is refused.
    pub fn update_last_access(&mut self, id: u128, now: u64) -> (r: Result<(), SchematicError>)
        requires
            old(self).wf(),
        ensures
            final(self).wf(),
            position_of(old(self).txs(), id) is None <==> r is Err,
            r is Err ==> r->Err_0 == SchematicError::TransactionNotFound(id) && final(self).txs() == old(self).txs(),
            r is Ok ==> {
                let k = position_of(old(self).txs(), id)->Some_0;
                final(self).txs() == old(self).txs().update(k, TxModel { last_access: now, ..old(self).txs()[k] })
            },
    {
        match self.find(id) {
            None => Err(SchematicError::TransactionNotFound(id)),
            Some(k) => {
                let ghost before = self.transactions@;
                assert(self.transactions@[k as int]@ == self.txs()[k as int]);
                self.transactions[k].update_last_access(now);
                assert(self.txs() =~= before.map_values(|t: Transaction| t@).update(k as int, self.transactions@[k as int]@));
                Ok(())
            },
        }
    }

    /// Checks whether the transaction with id `id` is hung at time `now` (see
    /// [`Transaction::check_stalled`]); an unknown transaction is refused.
    pub fn check_stalled(&mut self, id: u128, now: u64, hang_after: u64) -> (r: Result<(TxState, Vec<Action>), SchematicError>)
        requires
            old(self).wf(),
        ensures
            final(self).wf(),
            position_of(old(self).txs(), id) is None <==> r is Err,
            r is Err ==> r->Err_0 == SchematicError::TransactionNotFound(id) && final(self).txs() == old(self).txs(),
            r is Ok ==> {
                let k = position_of(old(self).txs(), id)->Some_0;
                let before = old(self).txs()[k];
                let after = final(self).txs()[k];
                let g = before.graph;
                let (state, actions) = r->Ok_0;
                &&& final(self).txs().len() == old(self).txs().len()
                &&& forall|j: int| 0 <= j < old(self).txs().len() && j != k ==> #[trigger] final(self).txs()[j] == old(self).txs()[j]
                &&& before.grows_to(after)
                &&& done_step(actions@, before, after)
                &&& (state == TxState::OutputComplete <==> outputs_done(g, before.ins))
                &&& (state == TxState::Hung <==> (!outputs_done(g, before.ins) && now >= before.last_access
                    && now - before.last_access >= hang_after))
                &&& (state == TxState::Hung ==> after.finished && emitted(actions@) == hung_packets(
                    g,
                    g.nodes@[g.nodes.len() - 1].inputs.len() as int,
                ))
                &&& (state != TxState::Hung ==> after == before && actions@.len() == 0)
            },
    {
        match self.find(id) {
            None => Err(SchematicError::TransactionNotFound(id)),
            Some(k) => {
                let ghost before = self.transactions@;
                assert(self.transactions@[k as int]@ == self.txs()[k as int]);
                let r = self.transactions[k].check_stalled(now, hang_after);
                assert(self.transactions@ == before.update(k as int, self.transactions@[k as int]));
                assert(self.txs() =~= before.map_values(|t: Transaction| t@).update(k as int, self.transactions@[k as int]@));
                Ok(r)
            },
        }
    }
}

} // verus!
