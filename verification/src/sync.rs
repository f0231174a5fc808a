//! The synchronization engine: replay of published history from a start
//! height up to the network head observed at engine start (catch-up), then
//! ordered application of live-subscription deliveries, held back so that no
//! live transaction reaches the ledger before catch-up is complete.

use vstd::prelude::*;

use crate::codec::{spec_decode_blob, tx_sig_ok, Batch};
use crate::state::{tx_step, State, StateV};
use crate::tx::TxV;

verus! {

/// The transactions one published blob contributes: its decoded batch, or
/// nothing for a foreign or malformed blob.
pub open spec fn blob_txs(b: Seq<u8>) -> Seq<TxV> {
    match spec_decode_blob(b) {
        Some(ts) => ts,
        None => Seq::empty(),
    }
}

/// One sync step of the node: a transaction reaches the ledger only if its
/// signature verifies; a rejection by the ledger leaves it unchanged, and
/// neither stops the replay.
pub open spec fn node_step(s: StateV, t: TxV) -> StateV {
    if tx_sig_ok(t) {
        tx_step(s, t)
    } else {
        s
    }
}

/// The ledger after applying a sequence of transactions, in order, each
/// through [`node_step`].
pub open spec fn apply_verified(s: StateV, ts: Seq<TxV>) -> StateV
    decreases ts.len(),
{
    if ts.len() == 0 {
        s
    } else {
        apply_verified(node_step(s, ts[0]), ts.drop_first())
    }
}

/// Every transaction of one height's blobs: blob order, then transaction
/// order within each decoded batch.
pub open spec fn block_txs(blobs: Seq<Seq<u8>>) -> Seq<TxV>
    decreases blobs.len(),
{
    if blobs.len() == 0 {
        Seq::empty()
    } else {
        blob_txs(blobs[0]) + block_txs(blobs.drop_first())
    }
}

/// The ledger after the blobs of one height.
pub open spec fn apply_block(s: StateV, blobs: Seq<Seq<u8>>) -> StateV {
    apply_verified(s, block_txs(blobs))
}

/// The ledger after a sequence of blob groups, in arrival order.
pub open spec fn apply_blocks(s: StateV, blocks: Seq<Seq<Seq<u8>>>) -> StateV
    decreases blocks.len(),
{
    if blocks.len() == 0 {
        s
    } else {
        apply_blocks(apply_block(s, blocks[0]), blocks.drop_first())
    }
}

proof fn lemma_apply_verified_push(s: StateV, ts: Seq<TxV>, t: TxV)
    ensures
        apply_verified(s, ts.push(t)) == node_step(apply_verified(s, ts), t),
    decreases ts.len(),
{
    if ts.len() == 0 {
        assert(ts.push(t)[0] == t);
        assert(ts.push(t).drop_first() =~= Seq::<TxV>::empty());
        assert(apply_verified(node_step(s, t), ts.push(t).drop_first()) == node_step(s, t));
    } else {
        assert(ts.push(t)[0] == ts[0]);
        assert(ts.push(t).drop_first() =~= ts.drop_first().push(t));
        lemma_apply_verified_push(node_step(s, ts[0]), ts.drop_first(), t);
    }
}

proof fn lemma_apply_verified_concat(s: StateV, a: Seq<TxV>, b: Seq<TxV>)
    ensures
        apply_verified(s, a + b) == apply_verified(apply_verified(s, a), b),
    decreases a.len(),
{
    if a.len() == 0 {
        assert(a + b =~= b);
    } else {
        assert((a + b)[0] == a[0]);
        assert((a + b).drop_first() =~= a.drop_first() + b);
        lemma_apply_verified_concat(node_step(s, a[0]), a.drop_first(), b);
    }
}

proof fn lemma_block_txs_push(blobs: Seq<Seq<u8>>, b: Seq<u8>)
    ensures
        block_txs(blobs.push(b)) == block_txs(blobs) + blob_txs(b),
    decreases blobs.len(),
{
    if blobs.len() == 0 {
        assert(blobs.push(b).drop_first() =~= Seq::<Seq<u8>>::empty());
        assert(block_txs(blobs.push(b).drop_first()) == Seq::<TxV>::empty());
        assert(block_txs(blobs.push(b)) =~= block_txs(blobs) + blob_txs(b));
    } else {
        assert(blobs.push(b)[0] == blobs[0]);
        assert(blobs.push(b).drop_first() =~= blobs.drop_first().push(b));
        lemma_block_txs_push(blobs.drop_first(), b);
        vstd::seq_lib::lemma_concat_associative(
            blob_txs(blobs[0]),
            block_txs(blobs.drop_first()),
            blob_txs(b),
        );
        assert(block_txs(blobs.push(b)) == block_txs(blobs) + blob_txs(b));
    }
}

proof fn lemma_apply_blocks_push(s: StateV, blocks: Seq<Seq<Seq<u8>>>, blk: Seq<Seq<u8>>)
    ensures
        apply_blocks(s, blocks.push(blk)) == apply_block(apply_blocks(s, blocks), blk),
    decreases blocks.len(),
{
    if blocks.len() == 0 {
        assert(blocks.push(blk)[0] == blk);
        assert(blocks.push(blk).drop_first() =~= Seq::<Seq<Seq<u8>>>::empty());
        assert(apply_blocks(apply_block(s, blk), blocks.push(blk).drop_first()) == apply_block(
            s,
            blk,
        ));
    } else {
        assert(blocks.push(blk)[0] == blocks[0]);
        assert(blocks.push(blk).drop_first() =~= blocks.drop_first().push(blk));
        lemma_apply_blocks_push(apply_block(s, blocks[0]), blocks.drop_first(), blk);
    }
}

/// Decode every blob of one published block and apply, in order, each
/// transaction whose signature verifies. A blob that is not ours, and a
/// transaction the ledger rejects, are skipped; neither is fatal.
pub fn apply_block_blobs(state: &mut State, blobs: &Vec<Vec<u8>>)
    ensures
        final(state)@ == apply_block(old(state)@, blobs.deep_view()),
{
    let ghost s0 = state@;
    let mut i: usize = 0;
    while i < blobs.len()
        invariant
            i <= blobs@.len(),
            state@ == apply_verified(s0, block_txs(blobs.deep_view().take(i as int))),
        decreases blobs@.len() - i,
    {
        let ghost pre_blob = state@;
        let ghost blobv = blobs.deep_view()[i as int];
        match Batch::from_blob(&blobs[i]) {
            Some(batch) => {
                proof {
                    assert(blobs[i as int]@ =~= blobv);
                    assert(blob_txs(blobv) == batch@);
                }
                let mut txs = batch.into_transactions();
                let ghost txsv = txs.deep_view();
                let ghost mut j: int = 0;
                proof {
                    assert(txsv.take(0) =~= Seq::<TxV>::empty());
                }
                while txs.len() > 0
                    invariant
                        0 <= j,
                        j + txs@.len() == txsv.len(),
                        txs.deep_view() =~= txsv.skip(j),
                        state@ == apply_verified(pre_blob, txsv.take(j)),
                    decreases txs@.len(),
                {
                    let ghost txs_before = txs@;
                    let ghost dv_before = txs.deep_view();
                    let tx = txs.remove(0);
                    let ghost txv = tx@;
                    proof {
                        assert(txv == dv_before[0]);
                        assert(txv == txsv[j]);
                        assert(txs@ =~= txs_before.subrange(1, txs_before.len() as int));
                        assert forall|k: int|
                            0 <= k < txs.deep_view().len() implies txs.deep_view()[k] == txsv.skip(
                            j + 1,
                        )[k] by {
                            assert(txs.deep_view()[k] == txs@[k].deep_view());
                            assert(txs@[k] == txs_before[k + 1]);
                            assert(dv_before[k + 1] == txs_before[k + 1].deep_view());
                            assert(dv_before[k + 1] == txsv.skip(j)[k + 1]);
                            assert(txsv.skip(j)[k + 1] == txsv[j + 1 + k]);
                            assert(txsv.skip(j + 1)[k] == txsv[j + 1 + k]);
                        }
                        assert(txs.deep_view() =~= txsv.skip(j + 1));
                        assert(txsv.take(j + 1) =~= txsv.take(j).push(txv));
                        lemma_apply_verified_push(pre_blob, txsv.take(j), txv);
                    }
                    if tx.verify() {
                        let _ = state.process_tx(tx);
                    }
                    proof {
                        j = j + 1;
                    }
                }
                proof {
                    assert(txsv.take(j) =~= txsv);
                }
            },
            None => {
                proof {
                    assert(blobs[i as int]@ =~= blobv);
                    assert(blob_txs(blobv) =~= Seq::<TxV>::empty());
                }
            },
        }
        proof {
            assert(blobs.deep_view().take(i as int + 1) =~= blobs.deep_view().take(
                i as int,
            ).push(blobv));
            lemma_block_txs_push(blobs.deep_view().take(i as int), blobv);
            lemma_apply_verified_concat(
                s0,
                block_txs(blobs.deep_view().take(i as int)),
                blob_txs(blobv),
            );
        }
        i = i + 1;
    }
    proof {
        assert(blobs.deep_view().take(blobs@.len() as int) =~= blobs.deep_view());
    }
}

/// How many live deliveries may wait for catch-up before the
/// subscriber has to hold back (backpressure, never a drop).
pub const LIVE_QUEUE_CAPACITY: usize = 100;

/// The mathematical value of the sync engine's control state.
#[verifier::ext_equal]
pub struct SyncV {
    /// The next height catch-up will fetch.
    pub next_height: u64,
    /// The network head observed at engine start; catch-up stops below it.
    pub target_height: u64,
    /// Whether every height in `[start, target)` has been applied.
    pub caught_up: bool,
    /// Live deliveries waiting, in arrival order, for catch-up to finish.
    pub queued: Seq<Seq<Seq<u8>>>,
}

/// The synchronization engine's control state. It enforces the ordering
/// invariant of the node: no transaction from a live delivery is applied to
/// the ledger before catch-up has applied every height in
/// `[start_height, network_head)` as observed at engine start.
pub struct SyncEngine {
    next_height: u64,
    target_height: u64,
    caught_up: bool,
    queued: Vec<Vec<Vec<u8>>>,
}

impl View for SyncEngine {
    type V = SyncV;

    closed spec fn view(&self) -> SyncV {
        SyncV {
            next_height: self.next_height,
            target_height: self.target_height,
            caught_up: self.caught_up,
            queued: self.queued.deep_view(),
        }
    }
}

impl SyncEngine {
    #[verifier::type_invariant]
    spec fn inv(self) -> bool {
        self.caught_up || self.next_height < self.target_height
    }

    /// An engine about to replay history from `start_height` up to, and
    /// excluding, `network_head`. With nothing to replay the engine counts
    /// as caught up at once.
    pub fn new(start_height: u64, network_head: u64) -> (r: Self)
        ensures
            r@.next_height == start_height,
            r@.target_height == network_head,
            r@.caught_up == (start_height >= network_head),
            r@.queued == Seq::<Seq<Seq<u8>>>::empty(),
    {
        let r = SyncEngine {
            next_height: start_height,
            target_height: network_head,
            caught_up: start_height >= network_head,
            queued: Vec::new(),
        };
        proof {
            assert(r@.queued =~= Seq::<Seq<Seq<u8>>>::empty());
        }
        r
    }

    /// Whether the catch-up phase has applied every height below the
    /// observed head; live deliveries are applied only after this holds.
    pub fn caught_up(&self) -> (r: bool)
        ensures
            r == self@.caught_up,
    {
        self.caught_up
    }

    /// The next height catch-up has to fetch, in increasing order, or
    /// `None` once catch-up is complete.
    pub fn next_fetch(&self) -> (r: Option<u64>)
        ensures
            match r {
                Some(h) => !self@.caught_up && h == self@.next_height && h < self@.target_height,
                None => self@.caught_up,
            },
    {
        proof {
            use_type_invariant(&*self);
        }
        if self.caught_up {
            None
        } else {
            Some(self.next_height)
        }
    }

    /// Apply the blobs fetched for the next catch-up height and advance the
    /// cursor; a height with no blobs is a no-op step. On finishing height
    /// `target_height - 1` catch-up is complete. Live deliveries stay queued.
    pub fn apply_catch_up(&mut self, state: &mut State, blobs: &Vec<Vec<u8>>)
        requires
            !old(self)@.caught_up,
        ensures
            final(state)@ == apply_block(old(state)@, blobs.deep_view()),
            final(self)@.next_height == old(self)@.next_height + 1,
            final(self)@.target_height == old(self)@.target_height,
            final(self)@.queued == old(self)@.queued,
            final(self)@.caught_up == (old(self)@.next_height + 1 >= old(self)@.target_height),
    {
        proof {
            use_type_invariant(&*self);
        }
        apply_block_blobs(state, blobs);
        let new_height = self.next_height + 1;
        if new_height >= self.target_height {
            self.caught_up = true;
        }
        self.next_height = new_height;
    }

    /// How many live deliveries are waiting for catch-up to finish.
    pub fn queue_len(&self) -> (n: usize)
        ensures
            n == self@.queued.len(),
    {
        self.queued.len()
    }

    /// Queue one live-subscription delivery, in arrival order. Nothing is
    /// applied here, whether or not catch-up is complete. A full queue
    /// refuses the delivery: the subscriber holds it back and retries, so
    /// it is delayed, never dropped or reordered.
    pub fn submit_live(&mut self, blobs: Vec<Vec<u8>>) -> (accepted: bool)
        ensures
            accepted == (old(self)@.queued.len() < LIVE_QUEUE_CAPACITY),
            accepted ==> final(self)@ == (SyncV {
                queued: old(self)@.queued.push(blobs.deep_view()),
                ..old(self)@
            }),
            !accepted ==> final(self)@ == old(self)@,
    {
        proof {
            use_type_invariant(&*self);
        }
        if self.queued.len() >= LIVE_QUEUE_CAPACITY {
            return false;
        }
        let ghost blobsv = blobs.deep_view();
        let ghost queued_before = self.queued.deep_view();
        let mut queued: Vec<Vec<Vec<u8>>> = Vec::new();
        core::mem::swap(&mut queued, &mut self.queued);
        queued.push(blobs);
        self.queued = queued;
        proof {
            assert(self@.queued =~= queued_before.push(blobsv));
            assert(self@ =~= SyncV { queued: old(self)@.queued.push(blobsv), ..old(self)@ });
        }
        true
    }

    /// Apply every queued live delivery, in arrival order, and empty the
    /// queue - but only once catch-up is complete. Before that the ledger
    /// and the queue are left untouched: this is what keeps live data out
    /// of the ledger until history is replayed.
    pub fn pump_live(&mut self, state: &mut State) -> (applied: bool)
        ensures
            applied == old(self)@.caught_up,
            !applied ==> final(self)@ == old(self)@ && final(state)@ == old(state)@,
            applied ==> final(self)@ == (SyncV { queued: Seq::empty(), ..old(self)@ }),
            applied ==> final(state)@ == apply_blocks(old(state)@, old(self)@.queued),
    {
        proof {
            use_type_invariant(&*self);
        }
        if !self.caught_up {
            return false;
        }
        let ghost s0 = state@;
        let ghost queuedv = self.queued.deep_view();
        let mut queued: Vec<Vec<Vec<u8>>> = Vec::new();
        core::mem::swap(&mut queued, &mut self.queued);
        proof {
            assert(self@.queued =~= Seq::<Seq<Seq<u8>>>::empty());
        }
        let mut i: usize = 0;
        while i < queued.len()
            invariant
                i <= queued@.len(),
                queued.deep_view() == queuedv,
                state@ == apply_blocks(s0, queuedv.take(i as int)),
            decreases queued@.len() - i,
        {
            let ghost blockv = queuedv[i as int];
            apply_block_blobs(state, &queued[i]);
            proof {
                assert(queued[i as int].deep_view() == blockv);
                assert(queuedv.take(i as int + 1) =~= queuedv.take(i as int).push(blockv));
                lemma_apply_blocks_push(s0, queuedv.take(i as int), blockv);
            }
            i = i + 1;
        }
        proof {
            assert(queuedv.take(queued@.len() as int) =~= queuedv);
            assert(self@ =~= SyncV { queued: Seq::empty(), ..old(self)@ });
        }
        true
    }
}

} // verus!
