//! The batching mempool: a buffer of accepted-but-unpublished transactions,
//! drained atomically into one batch blob per publish cycle.

use vstd::prelude::*;

use crate::codec::{spec_encode_batch, Batch};
use crate::tx::{Transaction, TxV};

verus! {

/// The pending-transaction buffer. Nothing is validated at enqueue time:
/// validation happens only against the authoritative ledger at apply time.
pub struct Mempool {
    pending: Vec<Transaction>,
}

impl View for Mempool {
    type V = Seq<TxV>;

    closed spec fn view(&self) -> Seq<TxV> {
        self.pending.deep_view()
    }
}

impl Mempool {
    /// An empty mempool.
    pub fn new() -> (m: Self)
        ensures
            m@ == Seq::<TxV>::empty(),
    {
        let m = Mempool { pending: Vec::new() };
        proof {
            assert(m@ =~= Seq::<TxV>::empty());
        }
        m
    }

    /// How many transactions are pending.
    pub fn len(&self) -> (n: usize)
        ensures
            n == self@.len(),
    {
        self.pending.len()
    }

    /// Append one transaction to the pending list. Best-effort submission:
    /// a transaction doomed to rejection is still accepted here.
    pub fn enqueue(&mut self, tx: Transaction)
        ensures
            final(self)@ == old(self)@.push(tx@),
    {
        let ghost txv = tx@;
        self.pending.push(tx);
        proof {
            assert(self@ =~= old(self)@.push(txv));
        }
    }

    /// Atomically take every pending transaction, in order, leaving the
    /// mempool empty: nothing is lost and nothing is duplicated, and a
    /// transaction enqueued after this call lands in the next batch.
    pub fn drain(&mut self) -> (r: Vec<Transaction>)
        ensures
            final(self)@ == Seq::<TxV>::empty(),
            r.deep_view() == old(self)@,
    {
        let mut drained: Vec<Transaction> = Vec::new();
        core::mem::swap(&mut drained, &mut self.pending);
        proof {
            assert(self@ =~= Seq::<TxV>::empty());
        }
        drained
    }

    /// One publish cycle: drain the pending list and serialize it as one
    /// batch blob. With nothing pending this is a no-op and nothing is
    /// published.
    pub fn flush(&mut self) -> (r: Option<Vec<u8>>)
        ensures
            final(self)@ == Seq::<TxV>::empty(),
            r is None <==> old(self)@.len() == 0,
            r matches Some(blob) ==> blob@ == spec_encode_batch(old(self)@),
    {
        if self.pending.is_empty() {
            proof {
                assert(self@ =~= Seq::<TxV>::empty());
            }
            return None;
        }
        let drained = self.drain();
        let batch = Batch::new(drained);
        Some(batch.encode())
    }
}

} // verus!
