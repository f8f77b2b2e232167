//! Messages that nodes exchange, their byte layout, and what a node does with
//! one it receives.

use vstd::prelude::*;
use vstd::bytes::spec_u32_to_le_bytes;
use crate::accounts::settle;
use crate::codec::push_u32;
use crate::extrinsic::{Extrinsic, MemPool, extrinsic_bytes, push_extrinsic};
use crate::ledger::{Block, Ledger, block_bytes, block_views, count_follows, hash_follows, push_block};

verus! {

/// A message between nodes: a new transaction for the pool, or a new block.
#[derive(Debug)]
pub enum NetworkMessage {
    NewTransaction(Extrinsic),
    NewBlock(Block),
}

/// The byte layout of a message: the variant's index (four little-endian
/// bytes), then the layout of its contents.
pub open spec fn message_bytes(msg: NetworkMessage) -> Seq<u8> {
    match msg {
        NetworkMessage::NewTransaction(tx) => spec_u32_to_le_bytes(0) + extrinsic_bytes(tx@),
        NetworkMessage::NewBlock(block) => spec_u32_to_le_bytes(1) + block_bytes(block@),
    }
}

/// The bytes a message is sent as.
pub fn encode_network_message(msg: &NetworkMessage) -> (bytes: Vec<u8>)
    ensures
        bytes@ == message_bytes(*msg),
{
    let mut bytes: Vec<u8> = Vec::new();
    match msg {
        NetworkMessage::NewTransaction(tx) => {
            push_u32(&mut bytes, 0);
            push_extrinsic(&mut bytes, tx, tx.signature.as_str());
            assert(tx@ == crate::extrinsic::ExtrinsicView { signature: tx.signature@, ..tx@ });
        },
        NetworkMessage::NewBlock(block) => {
            push_u32(&mut bytes, 1);
            push_block(&mut bytes, block, block.signature.as_str());
            assert(block@ == crate::ledger::BlockView { signature: block.signature@, ..block@ });
        },
    }
    assert(bytes@ =~= message_bytes(*msg));
    bytes
}

/// What receiving a message came to.
#[derive(Debug, PartialEq, Eq)]
pub enum MessageOutcome {
    /// The transaction went into the pool.
    TransactionPooled,
    /// The block extends the chain; it was appended and its transactions left the pool.
    BlockAppended,
    /// The block does not extend the chain; nothing changed.
    BlockRejected,
    /// The block is numbered 0 on a chain that has blocks, so the number
    /// before it does not exist; nothing changed.
    CountUnderflow,
    /// The block extends the chain but one of its credits would exceed
    /// `u64::MAX`; nothing changed.
    BalanceOverflow,
}

/// Handles a received message: a transaction goes into the pool; a block that
/// extends the chain (numbered right after the last block and naming its
/// hash) is appended, its transfers settled and its transactions removed from
/// the pool. The two outcomes where no balance or number can be computed are
/// reported and change nothing.
pub fn handle_message(pool: &mut MemPool, ledger: &mut Ledger, msg: NetworkMessage) -> (outcome: MessageOutcome)
    ensures
        match msg {
            NetworkMessage::NewTransaction(tx) => {
                &&& outcome == MessageOutcome::TransactionPooled
                &&& final(pool)@ == old(pool)@.insert(tx@)
                &&& final(ledger).blocks@ == old(ledger).blocks@
                &&& final(ledger).accounts@ == old(ledger).accounts@
            },
            NetworkMessage::NewBlock(block) => {
                let chain = block_views(old(ledger).blocks@);
                let settled = settle(old(ledger).accounts@, block@.transactions);
                if chain.len() > 0 && block.block_count == 0 {
                    &&& outcome == MessageOutcome::CountUnderflow
                    &&& final(pool)@ == old(pool)@
                    &&& final(ledger).blocks@ == old(ledger).blocks@
                    &&& final(ledger).accounts@ == old(ledger).accounts@
                } else if !(count_follows(chain, block@) && hash_follows(chain, block@)) {
                    &&& outcome == MessageOutcome::BlockRejected
                    &&& final(pool)@ == old(pool)@
                    &&& final(ledger).blocks@ == old(ledger).blocks@
                    &&& final(ledger).accounts@ == old(ledger).accounts@
                } else if settled is None {
                    &&& outcome == MessageOutcome::BalanceOverflow
                    &&& final(pool)@ == old(pool)@
                    &&& final(ledger).blocks@ == old(ledger).blocks@
                    &&& final(ledger).accounts@ == old(ledger).accounts@
                } else {
                    &&& outcome == MessageOutcome::BlockAppended
                    &&& final(ledger).blocks@ == old(ledger).blocks@.push(block)
                    &&& final(ledger).accounts@ == settled->0
                    &&& final(pool)@ == old(pool)@.difference(block@.transactions.to_set())
                }
            },
        },
{
    match msg {
        NetworkMessage::NewTransaction(tx) => {
            pool.add_extrinsic(tx);
            MessageOutcome::TransactionPooled
        },
        NetworkMessage::NewBlock(block) => {
            if ledger.blocks.len() > 0 && block.block_count == 0 {
                return MessageOutcome::CountUnderflow;
            }
            if !(ledger.validate_block_count(&block) && ledger.validate_previous_block_hash(&block)) {
                return MessageOutcome::BlockRejected;
            }
            if !ledger.accounts.can_settle(block.transactions.as_slice()) {
                return MessageOutcome::BalanceOverflow;
            }
            let copy = block.clone();
            ledger.add_block(block);
            pool.pop_extrinsic(copy.transactions.as_slice());
            MessageOutcome::BlockAppended
        },
    }
}

} // verus!
