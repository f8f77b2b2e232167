//! Blocks, the chain of them, and the balances their transfers settle on.

use vstd::prelude::*;
use vstd::bytes::spec_u64_to_le_bytes;
use crate::accounts::{Accounts, balance_of, settle, touched, lemma_settle_prefix, lemma_settle_step};
use crate::codec::{push_str, push_u64, str_bytes, str_fits, lemma_regroup3, lemma_regroup7, lemma_str_prefix, lemma_u64_prefix};
use crate::crypto::{blake3_digest, blake3_hash};
use crate::extrinsic::{Extrinsic, ExtrinsicView, extrinsic_bytes, extrinsic_fits, lemma_extrinsic_prefix, push_extrinsic, views_of};
use crate::hex::{hex_lower, to_hex};

verus! {

/// A block: transactions, the hash of the block before it, its signer, its
/// position in the chain, when it was made, and the signer's signature.
#[derive(Debug, PartialEq)]
pub struct Block {
    pub transactions: Vec<Extrinsic>,
    pub previous_hash: String,
    pub signer: String,
    pub block_count: u64,
    pub timestamp: u64,
    pub signature: String,
}

/// The contents of a block.
#[verifier::ext_equal]
pub struct BlockView {
    pub transactions: Seq<ExtrinsicView>,
    pub previous_hash: Seq<char>,
    pub signer: Seq<char>,
    pub block_count: u64,
    pub timestamp: u64,
    pub signature: Seq<char>,
}

impl View for Block {
    type V = BlockView;

    open spec fn view(&self) -> BlockView {
        BlockView {
            transactions: views_of(self.transactions@),
            previous_hash: self.previous_hash@,
            signer: self.signer@,
            block_count: self.block_count,
            timestamp: self.timestamp,
            signature: self.signature@,
        }
    }
}

impl Clone for Block {
    fn clone(&self) -> (copy: Self)
        ensures
            copy@ == self@,
    {
        let transactions = self.transactions.clone();
        assert(views_of(transactions@) =~= views_of(self.transactions@));
        Block {
            transactions,
            previous_hash: self.previous_hash.clone(),
            signer: self.signer.clone(),
            block_count: self.block_count,
            timestamp: self.timestamp,
            signature: self.signature.clone(),
        }
    }
}

/// The layouts of a sequence of extrinsics, one after another.
pub open spec fn extrinsics_bytes(txs: Seq<ExtrinsicView>) -> Seq<u8>
    decreases txs.len(),
{
    if txs.len() == 0 {
        Seq::empty()
    } else {
        extrinsics_bytes(txs.drop_last()) + extrinsic_bytes(txs.last())
    }
}

/// The byte layout of a block: the number of its transactions, their
/// layouts, then its other fields in declaration order.
pub open spec fn block_bytes(b: BlockView) -> Seq<u8> {
    spec_u64_to_le_bytes(b.transactions.len() as u64) + extrinsics_bytes(b.transactions)
        + str_bytes(b.previous_hash) + str_bytes(b.signer) + spec_u64_to_le_bytes(b.block_count)
        + spec_u64_to_le_bytes(b.timestamp) + str_bytes(b.signature)
}

/// The hash of a block: the BLAKE3 digest of its layout with the signature
/// left empty.
pub open spec fn block_digest(b: BlockView) -> Seq<u8> {
    blake3_digest(block_bytes(BlockView { signature: Seq::empty(), ..b }))
}

/// Whether the lengths in a block's layout fit their eight-byte prefixes.
pub open spec fn block_fits(b: BlockView) -> bool {
    &&& b.transactions.len() <= u64::MAX
    &&& forall|i: int| 0 <= i < b.transactions.len() ==> extrinsic_fits(#[trigger] b.transactions[i])
    &&& str_fits(b.previous_hash)
    &&& str_fits(b.signer)
    &&& str_fits(b.signature)
}

/// The layouts of a sequence of extrinsics, taken from the front.
proof fn lemma_extrinsics_front(txs: Seq<ExtrinsicView>)
    requires
        txs.len() > 0,
    ensures
        extrinsics_bytes(txs) == extrinsic_bytes(txs[0]) + extrinsics_bytes(txs.drop_first()),
    decreases txs.len(),
{
    if txs.len() == 1 {
        assert(txs.drop_last() =~= Seq::<ExtrinsicView>::empty());
        assert(txs.drop_first() =~= Seq::<ExtrinsicView>::empty());
        assert(extrinsics_bytes(txs) =~= extrinsic_bytes(txs[0]) + extrinsics_bytes(txs.drop_first()));
    } else {
        lemma_extrinsics_front(txs.drop_last());
        assert(txs.drop_last().drop_first() =~= txs.drop_first().drop_last());
        assert(txs.drop_first().last() == txs.last());
        assert(extrinsics_bytes(txs) =~= extrinsic_bytes(txs[0]) + extrinsics_bytes(txs.drop_first()));
    }
}

/// As many extrinsics as there are can be read back off the front of a layout.
proof fn lemma_extrinsics_prefix(s1: Seq<ExtrinsicView>, s2: Seq<ExtrinsicView>, rest1: Seq<u8>, rest2: Seq<u8>)
    requires
        s1.len() == s2.len(),
        forall|i: int| 0 <= i < s1.len() ==> extrinsic_fits(#[trigger] s1[i]),
        forall|i: int| 0 <= i < s2.len() ==> extrinsic_fits(#[trigger] s2[i]),
        extrinsics_bytes(s1) + rest1 == extrinsics_bytes(s2) + rest2,
    ensures
        s1 == s2,
        rest1 == rest2,
    decreases s1.len(),
{
    if s1.len() == 0 {
        assert(extrinsics_bytes(s1) + rest1 =~= rest1);
        assert(extrinsics_bytes(s2) + rest2 =~= rest2);
        assert(s1 =~= s2);
    } else {
        lemma_extrinsics_front(s1);
        lemma_extrinsics_front(s2);
        let more1 = extrinsics_bytes(s1.drop_first()) + rest1;
        let more2 = extrinsics_bytes(s2.drop_first()) + rest2;
        lemma_regroup3(extrinsic_bytes(s1[0]), extrinsics_bytes(s1.drop_first()), rest1);
        lemma_regroup3(extrinsic_bytes(s2[0]), extrinsics_bytes(s2.drop_first()), rest2);
        assert(extrinsic_fits(s1[0]) && extrinsic_fits(s2[0]));
        lemma_extrinsic_prefix(s1[0], s2[0], more1, more2);
        assert forall|i: int| 0 <= i < s1.drop_first().len() implies extrinsic_fits(#[trigger] s1.drop_first()[i]) by {
            assert(s1.drop_first()[i] == s1[i + 1]);
        }
        assert forall|i: int| 0 <= i < s2.drop_first().len() implies extrinsic_fits(#[trigger] s2.drop_first()[i]) by {
            assert(s2.drop_first()[i] == s2[i + 1]);
        }
        lemma_extrinsics_prefix(s1.drop_first(), s2.drop_first(), rest1, rest2);
        assert(s1 =~= s2) by {
            assert forall|i: int| 0 <= i < s1.len() implies s1[i] == s2[i] by {
                if i > 0 {
                    assert(s1[i] == s1.drop_first()[i - 1]);
                    assert(s2[i] == s2.drop_first()[i - 1]);
                }
            }
        }
    }
}

/// Two blocks with the same layout are the same block.
proof fn lemma_block_bytes_injective(b1: BlockView, b2: BlockView)
    requires
        block_fits(b1),
        block_fits(b2),
        block_bytes(b1) == block_bytes(b2),
    ensures
        b1 == b2,
{
    let t1 = str_bytes(b1.signature);
    let t2 = str_bytes(b2.signature);
    let s1 = spec_u64_to_le_bytes(b1.timestamp) + t1;
    let s2 = spec_u64_to_le_bytes(b2.timestamp) + t2;
    let c1 = spec_u64_to_le_bytes(b1.block_count) + s1;
    let c2 = spec_u64_to_le_bytes(b2.block_count) + s2;
    let g1 = str_bytes(b1.signer) + c1;
    let g2 = str_bytes(b2.signer) + c2;
    let p1 = str_bytes(b1.previous_hash) + g1;
    let p2 = str_bytes(b2.previous_hash) + g2;
    let x1 = extrinsics_bytes(b1.transactions) + p1;
    let x2 = extrinsics_bytes(b2.transactions) + p2;
    lemma_regroup7(spec_u64_to_le_bytes(b1.transactions.len() as u64), extrinsics_bytes(b1.transactions),
        str_bytes(b1.previous_hash), str_bytes(b1.signer), spec_u64_to_le_bytes(b1.block_count),
        spec_u64_to_le_bytes(b1.timestamp), t1);
    lemma_regroup7(spec_u64_to_le_bytes(b2.transactions.len() as u64), extrinsics_bytes(b2.transactions),
        str_bytes(b2.previous_hash), str_bytes(b2.signer), spec_u64_to_le_bytes(b2.block_count),
        spec_u64_to_le_bytes(b2.timestamp), t2);
    lemma_u64_prefix(b1.transactions.len() as u64, b2.transactions.len() as u64, x1, x2);
    lemma_extrinsics_prefix(b1.transactions, b2.transactions, p1, p2);
    lemma_str_prefix(b1.previous_hash, b2.previous_hash, g1, g2);
    lemma_str_prefix(b1.signer, b2.signer, c1, c2);
    lemma_u64_prefix(b1.block_count, b2.block_count, s1, s2);
    lemma_u64_prefix(b1.timestamp, b2.timestamp, t1, t2);
    assert(t1 + Seq::<u8>::empty() =~= t1);
    assert(t2 + Seq::<u8>::empty() =~= t2);
    lemma_str_prefix(b1.signature, b2.signature, Seq::empty(), Seq::empty());
    assert(b1 =~= b2);
}

/// The hash of a block is the BLAKE3 digest of its layout with the signature
/// cleared, and that layout records every transaction and every other field:
/// two blocks hash the same layout exactly when they agree on everything but
/// their signatures.
pub proof fn lemma_block_digest_covers_contents(b1: BlockView, b2: BlockView)
    requires
        block_fits(b1),
        block_fits(b2),
    ensures
        block_digest(b1) == blake3_digest(block_bytes(BlockView { signature: Seq::empty(), ..b1 })),
        (block_bytes(BlockView { signature: Seq::empty(), ..b1 }) == block_bytes(BlockView { signature: Seq::empty(), ..b2 }))
            <==> (BlockView { signature: Seq::empty(), ..b1 } == BlockView { signature: Seq::empty(), ..b2 }),
{
    assert(vstd::utf8::encode_utf8(Seq::<char>::empty()) =~= Seq::<u8>::empty());
    let u1 = BlockView { signature: Seq::empty(), ..b1 };
    let u2 = BlockView { signature: Seq::empty(), ..b2 };
    if block_bytes(u1) == block_bytes(u2) {
        lemma_block_bytes_injective(u1, u2);
    }
}

/// Appends the layout of `block`, with `signature` in place of its own.
pub fn push_block(out: &mut Vec<u8>, block: &Block, signature: &str)
    ensures
        final(out)@ == old(out)@ + block_bytes(BlockView { signature: signature@, ..block@ }),
{
    let ghost start = out@;
    let ghost txs = views_of(block.transactions@);
    push_u64(out, block.transactions.len() as u64);
    let ghost header = out@;
    let mut i: usize = 0;
    while i < block.transactions.len()
        invariant
            i <= block.transactions@.len(),
            txs == views_of(block.transactions@),
            out@ == header + extrinsics_bytes(txs.take(i as int)),
        decreases block.transactions@.len() - i,
    {
        let tx = &block.transactions[i];
        push_extrinsic(out, tx, tx.signature.as_str());
        proof {
            assert(txs.take(i + 1).drop_last() =~= txs.take(i as int));
            assert(ExtrinsicView { signature: tx.signature@, ..tx@ } == txs[i as int]);
            assert(out@ =~= header + extrinsics_bytes(txs.take(i + 1)));
        }
        i = i + 1;
    }
    assert(txs.take(txs.len() as int) =~= txs);
    push_str(out, block.previous_hash.as_str());
    push_str(out, block.signer.as_str());
    push_u64(out, block.block_count);
    push_u64(out, block.timestamp);
    push_str(out, signature);
    assert(out@ =~= start + block_bytes(BlockView { signature: signature@, ..block@ }));
}

/// The hash of a block does not depend on its signature, so signing a block
/// leaves the hash that was signed unchanged.
pub proof fn lemma_block_digest_ignores_signature(b: BlockView, signature: Seq<char>)
    ensures
        block_digest(BlockView { signature, ..b }) == block_digest(b),
{
    assert(BlockView { signature: Seq::empty(), ..BlockView { signature, ..b } } =~= BlockView {
        signature: Seq::empty(),
        ..b
    });
}

impl Block {
    /// The BLAKE3 hash of the block, taken with its signature cleared.
    pub fn hash_data(&self) -> (digest: [u8; 32])
        ensures
            digest@ == block_digest(self@),
    {
        let mut bytes: Vec<u8> = Vec::new();
        let empty = String::new();
        push_block(&mut bytes, self, empty.as_str());
        assert(bytes@ =~= block_bytes(BlockView { signature: Seq::empty(), ..self@ }));
        blake3_hash(bytes.as_slice())
    }
}

/// Whether `previous_hash` is the lowercase hexadecimal text of `digest`.
pub fn previous_hash_matches(digest: &[u8; 32], previous_hash: &str) -> (matches: bool)
    ensures
        matches == (previous_hash@ == hex_lower(digest@)),
{
    let text = to_hex(digest.as_slice());
    let expected = previous_hash.to_owned();
    text == expected
}

/// The views of a sequence of blocks.
pub open spec fn block_views(blocks: Seq<Block>) -> Seq<BlockView> {
    blocks.map_values(|b: Block| b@)
}

/// Whether `b` is numbered right after the last of `chain` (or, on an empty
/// chain, numbered 0).
pub open spec fn count_follows(chain: Seq<BlockView>, b: BlockView) -> bool {
    if chain.len() > 0 {
        chain.last().block_count == b.block_count - 1
    } else {
        b.block_count == 0
    }
}

/// Whether `b` names the hash of the last of `chain` as its previous hash
/// (or, on an empty chain, names none).
pub open spec fn hash_follows(chain: Seq<BlockView>, b: BlockView) -> bool {
    if chain.len() > 0 {
        b.previous_hash == hex_lower(block_digest(chain.last()))
    } else {
        b.previous_hash.len() == 0
    }
}

/// A block numbered one past the last block of a chain and naming that
/// block's hash extends the chain; on an empty chain, a block numbered 0
/// naming no previous hash does.
pub proof fn lemma_next_block_follows(chain: Seq<BlockView>, b: BlockView)
    requires
        chain.len() > 0 ==> b.block_count == chain.last().block_count + 1 && b.previous_hash
            == hex_lower(block_digest(chain.last())),
        chain.len() == 0 ==> b.block_count == 0 && b.previous_hash.len() == 0,
    ensures
        count_follows(chain, b),
        hash_follows(chain, b),
{
}

/// Once a block is appended, the next block extends the chain exactly when it
/// is numbered one past that block and names that block's hash.
pub proof fn lemma_next_after_append(chain: Seq<Block>, appended: Block, next: BlockView)
    ensures
        count_follows(block_views(chain.push(appended)), next) == (appended.block_count == next.block_count - 1),
        hash_follows(block_views(chain.push(appended)), next) == (next.previous_hash == hex_lower(block_digest(appended@))),
{
    assert(block_views(chain.push(appended)).last() == appended@);
}

/// Which block follows a chain by number: on an empty chain exactly a block
/// numbered 0, on any other chain exactly a block numbered one past the last
/// block; what the block names as its previous hash plays no part.
pub proof fn lemma_count_follows_exactly(chain: Seq<BlockView>, b: BlockView)
    ensures
        chain.len() == 0 ==> (count_follows(chain, b) <==> b.block_count == 0),
        chain.len() > 0 ==> (count_follows(chain, b) <==> b.block_count == chain.last().block_count + 1),
        forall|h: Seq<char>| #[trigger] count_follows(chain, BlockView { previous_hash: h, ..b }) == count_follows(chain, b),
{
}

/// Which block follows a chain by hash: on an empty chain exactly a block
/// that names no previous hash, on any other chain exactly a block that names
/// the lowercase hexadecimal hash of the last block; the block's number plays
/// no part.
pub proof fn lemma_hash_follows_exactly(chain: Seq<BlockView>, b: BlockView)
    ensures
        chain.len() == 0 ==> (hash_follows(chain, b) <==> b.previous_hash.len() == 0),
        chain.len() > 0 ==> (hash_follows(chain, b) <==> b.previous_hash == hex_lower(block_digest(chain.last()))),
        forall|n: u64| #[trigger] hash_follows(chain, BlockView { block_count: n, ..b }) == hash_follows(chain, b),
{
}

/// The balances after every sender of `txs` has been looked up in turn.
pub open spec fn touched_senders(m: Map<Seq<char>, u64>, txs: Seq<ExtrinsicView>) -> Map<Seq<char>, u64>
    decreases txs.len(),
{
    if txs.len() == 0 {
        m
    } else {
        touched(touched_senders(m, txs.drop_last()), txs.last().sender_public_key)
    }
}

/// The transactions whose sender holds at least their amount.
pub open spec fn covered(m: Map<Seq<char>, u64>, txs: Seq<ExtrinsicView>) -> Seq<ExtrinsicView> {
    txs.filter(|t: ExtrinsicView| balance_of(m, t.sender_public_key) >= t.amount)
}

/// Which transactions are covered: every kept transaction is one of `txs`
/// whose sender holds at least its amount, every such transaction is kept,
/// and nothing but the senders' balances decides.
pub proof fn lemma_covered_exactly(m: Map<Seq<char>, u64>, txs: Seq<ExtrinsicView>)
    ensures
        forall|i: int| 0 <= i < covered(m, txs).len() ==> {
            &&& balance_of(m, (#[trigger] covered(m, txs)[i]).sender_public_key) >= covered(m, txs)[i].amount
            &&& txs.contains(covered(m, txs)[i])
        },
        forall|i: int| 0 <= i < txs.len() && balance_of(m, txs[i].sender_public_key) >= txs[i].amount
            ==> covered(m, txs).contains(#[trigger] txs[i]),
        covered(m, txs).len() <= txs.len(),
        forall|other: Map<Seq<char>, u64>|
            (forall|i: int| 0 <= i < txs.len() ==> balance_of(other, (#[trigger] txs[i]).sender_public_key)
                == balance_of(m, txs[i].sender_public_key)) ==> #[trigger] covered(other, txs) == covered(m, txs),
{
    let pred = |t: ExtrinsicView| balance_of(m, t.sender_public_key) >= t.amount;
    assert forall|i: int| 0 <= i < covered(m, txs).len() implies {
        &&& balance_of(m, (#[trigger] covered(m, txs)[i]).sender_public_key) >= covered(m, txs)[i].amount
        &&& txs.contains(covered(m, txs)[i])
    } by {
        txs.lemma_filter_pred(pred, i);
        txs.lemma_filter_contains_rev(pred, covered(m, txs)[i]);
    }
    assert forall|i: int| 0 <= i < txs.len() && balance_of(m, txs[i].sender_public_key) >= txs[i].amount
        implies covered(m, txs).contains(#[trigger] txs[i]) by {
        txs.lemma_filter_contains(pred, i);
    }
    txs.lemma_filter_len(pred);
    assert forall|other: Map<Seq<char>, u64>|
        (forall|i: int| 0 <= i < txs.len() ==> balance_of(other, (#[trigger] txs[i]).sender_public_key)
            == balance_of(m, txs[i].sender_public_key)) implies #[trigger] covered(other, txs) == covered(m, txs) by {
        lemma_covered_same_senders(m, other, txs);
    }
}

proof fn lemma_covered_same_senders(m: Map<Seq<char>, u64>, other: Map<Seq<char>, u64>, txs: Seq<ExtrinsicView>)
    requires
        forall|i: int| 0 <= i < txs.len() ==> balance_of(other, (#[trigger] txs[i]).sender_public_key)
            == balance_of(m, txs[i].sender_public_key),
    ensures
        covered(other, txs) == covered(m, txs),
    decreases txs.len(),
{
    reveal_with_fuel(Seq::<_>::filter, 1);
    if txs.len() > 0 {
        let rest = txs.drop_last();
        assert forall|i: int| 0 <= i < rest.len() implies balance_of(other, (#[trigger] rest[i]).sender_public_key)
            == balance_of(m, rest[i].sender_public_key) by {
            assert(rest[i] == txs[i]);
        }
        lemma_covered_same_senders(m, other, rest);
        assert(txs.last() == txs[txs.len() - 1]);
    }
}

/// The chain of blocks and the balances its transfers have settled on.
pub struct Ledger {
    pub blocks: Vec<Block>,
    pub accounts: Accounts,
}

impl Ledger {
    /// An empty chain with no accounts.
    pub fn new() -> (ledger: Self)
        ensures
            ledger.blocks@.len() == 0,
            ledger.accounts@ == Map::<Seq<char>, u64>::empty(),
            ledger.accounts@.dom().finite(),
    {
        Ledger { blocks: Vec::new(), accounts: Accounts::new() }
    }

    /// Settles the block's transfers, then appends the block.
    pub fn add_block(&mut self, block: Block)
        requires
            settle(old(self).accounts@, block@.transactions) is Some,
        ensures
            final(self).accounts@ == settle(old(self).accounts@, block@.transactions)->0,
            final(self).accounts@.dom().finite(),
            final(self).blocks@ == old(self).blocks@.push(block),
    {
        self.push_extrinsics(block.transactions.as_slice());
        self.blocks.push(block);
    }

    /// Whether `block` is numbered right after the last block (or, on an
    /// empty chain, numbered 0).
    pub fn validate_block_count(&self, block: &Block) -> (follows: bool)
        requires
            self.blocks@.len() > 0 ==> block.block_count >= 1,
        ensures
            follows == count_follows(block_views(self.blocks@), block@),
            self.blocks@.len() == 0 ==> (follows <==> block.block_count == 0),
            self.blocks@.len() > 0 ==> (follows <==> block.block_count == self.blocks@.last().block_count + 1),
    {
        if self.blocks.len() > 0 {
            let last = &self.blocks[self.blocks.len() - 1];
            last.block_count == block.block_count - 1
        } else {
            block.block_count == 0
        }
    }

    /// Whether `block` names the hash of the last block as its previous hash
    /// (or, on an empty chain, names none).
    pub fn validate_previous_block_hash(&self, block: &Block) -> (follows: bool)
        ensures
            follows == hash_follows(block_views(self.blocks@), block@),
            self.blocks@.len() == 0 ==> (follows <==> block.previous_hash@.len() == 0),
            self.blocks@.len() > 0 ==> (follows <==> block.previous_hash@ == hex_lower(block_digest(self.blocks@.last()@))),
    {
        if self.blocks.len() > 0 {
            let last = &self.blocks[self.blocks.len() - 1];
            let digest = last.hash_data();
            previous_hash_matches(&digest, block.previous_hash.as_str())
        } else {
            block.previous_hash.as_str().is_empty()
        }
    }

    /// The transactions whose sender holds at least their amount, each judged
    /// on the balances as they are; every sender is looked up, which opens
    /// an account with 0 for a sender that has none.
    pub fn extrinsic_set_covered(&mut self, transactions: &[Extrinsic]) -> (result: Vec<Extrinsic>)
        ensures
            views_of(result@) == covered(old(self).accounts@, views_of(transactions@)),
            forall|i: int| 0 <= i < result@.len() ==> balance_of(old(self).accounts@, (#[trigger] result@[i]).sender_public_key@)
                >= result@[i].amount,
            forall|i: int| 0 <= i < transactions@.len() && balance_of(old(self).accounts@, transactions@[i].sender_public_key@)
                >= transactions@[i].amount ==> views_of(result@).contains(#[trigger] transactions@[i]@),
            final(self).accounts@ == touched_senders(old(self).accounts@, views_of(transactions@)),
            final(self).accounts@.dom().finite(),
            final(self).blocks@ == old(self).blocks@,
    {
        proof {
            use_type_invariant(&self.accounts);
            self.accounts.lemma_finitely_many();
        }
        let ghost base = self.accounts@;
        let ghost txs = views_of(transactions@);
        let ghost pred = |t: ExtrinsicView| balance_of(base, t.sender_public_key) >= t.amount;
        let mut result: Vec<Extrinsic> = Vec::new();
        let mut i: usize = 0;
        assert(txs.take(0) =~= Seq::<ExtrinsicView>::empty());
        while i < transactions.len()
            invariant
                i <= transactions@.len(),
                txs == views_of(transactions@),
                base == old(self).accounts@,
                self.blocks@ == old(self).blocks@,
                pred == (|t: ExtrinsicView| balance_of(base, t.sender_public_key) >= t.amount),
                self.accounts@ == touched_senders(base, txs.take(i as int)),
                self.accounts@.dom().finite(),
                forall|k: Seq<char>| balance_of(self.accounts@, k) == balance_of(base, k),
                views_of(result@) == txs.take(i as int).filter(pred),
            decreases transactions@.len() - i,
        {
            let tx = &transactions[i];
            proof {
                reveal_with_fuel(Seq::<_>::filter, 1);
                assert(txs.take(i + 1).drop_last() =~= txs.take(i as int));
                assert(txs[i as int] == tx@);
            }
            let ghost prev = views_of(result@);
            let balance = self.accounts.get_balance(tx.sender_public_key.as_str());
            if balance >= tx.amount {
                result.push(tx.clone());
                assert(views_of(result@) =~= prev.push(tx@));
            } else {
                assert(views_of(result@) =~= prev);
            }
            i = i + 1;
        }
        assert(txs.take(transactions@.len() as int) =~= txs);
        proof {
            lemma_covered_exactly(base, txs);
            assert forall|i: int| 0 <= i < result@.len() implies balance_of(base, (#[trigger] result@[i]).sender_public_key@)
                >= result@[i].amount by {
                assert(views_of(result@)[i] == result@[i]@);
            }
            assert forall|i: int| 0 <= i < transactions@.len() && balance_of(base, transactions@[i].sender_public_key@)
                >= transactions@[i].amount implies views_of(result@).contains(#[trigger] transactions@[i]@) by {
                assert(txs[i] == transactions@[i]@);
            }
        }
        result
    }

    /// Settles the transfers of `transactions` in order: a sender that
    /// cannot cover the amount is skipped; otherwise the sender is debited and
    /// the receiver credited.
    pub fn push_extrinsics(&mut self, transactions: &[Extrinsic])
        requires
            settle(old(self).accounts@, views_of(transactions@)) is Some,
        ensures
            final(self).accounts@ == settle(old(self).accounts@, views_of(transactions@))->0,
            final(self).accounts@.dom().finite(),
            final(self).blocks@ == old(self).blocks@,
    {
        proof {
            use_type_invariant(&self.accounts);
            self.accounts.lemma_finitely_many();
        }
        let ghost base = self.accounts@;
        let ghost txs = views_of(transactions@);
        let mut i: usize = 0;
        assert(txs.take(0) =~= Seq::<ExtrinsicView>::empty());
        while i < transactions.len()
            invariant
                i <= transactions@.len(),
                txs == views_of(transactions@),
                base == old(self).accounts@,
                self.blocks@ == old(self).blocks@,
                settle(base, txs) is Some,
                settle(base, txs.take(i as int)) == Some(self.accounts@),
                self.accounts@.dom().finite(),
            decreases transactions@.len() - i,
        {
            let tx = &transactions[i];
            let ghost now = self.accounts@;
            proof {
                lemma_settle_step(base, txs, i as int);
                lemma_settle_prefix(base, txs, i + 1);
                assert(txs[i as int] == tx@);
            }
            match self.accounts.sub_balance(tx.sender_public_key.as_str(), tx.amount) {
                Ok(()) => {
                    self.accounts.add_balance(tx.receiver_public_key.as_str(), tx.amount);
                },
                Err(_) => {},
            }
            i = i + 1;
        }
        assert(txs.take(transactions@.len() as int) =~= txs);
    }
}

impl Default for Ledger {
    fn default() -> (ledger: Self)
        ensures
            ledger.blocks@.len() == 0,
            ledger.accounts@ == Map::<Seq<char>, u64>::empty(),
    {
        Ledger::new()
    }
}

} // verus!
