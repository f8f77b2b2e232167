//! Signed transactions ("extrinsics") and the pool of those not yet in a block.

use vstd::prelude::*;
use vstd::bytes::spec_u64_to_le_bytes;
use crate::codec::{push_str, push_u64, str_bytes, str_fits, lemma_regroup8, lemma_str_prefix, lemma_u64_prefix};
use crate::crypto::{blake3_digest, blake3_hash};

verus! {

/// A transfer of `amount` from one account to another, signed by the sender.
#[derive(Debug, PartialEq, Eq, Hash)]
pub struct Extrinsic {
    pub id: String,
    pub sender_public_key: String,
    pub receiver_public_key: String,
    pub amount: u64,
    pub transaction_type: String,
    pub timestamp: u64,
    pub signature: String,
}

/// The contents of an extrinsic, with its strings as character sequences.
#[verifier::ext_equal]
pub struct ExtrinsicView {
    pub id: Seq<char>,
    pub sender_public_key: Seq<char>,
    pub receiver_public_key: Seq<char>,
    pub amount: u64,
    pub transaction_type: Seq<char>,
    pub timestamp: u64,
    pub signature: Seq<char>,
}

impl View for Extrinsic {
    type V = ExtrinsicView;

    open spec fn view(&self) -> ExtrinsicView {
        ExtrinsicView {
            id: self.id@,
            sender_public_key: self.sender_public_key@,
            receiver_public_key: self.receiver_public_key@,
            amount: self.amount,
            transaction_type: self.transaction_type@,
            timestamp: self.timestamp,
            signature: self.signature@,
        }
    }
}

impl Clone for Extrinsic {
    fn clone(&self) -> (copy: Self)
        ensures
            copy@ == self@,
    {
        Extrinsic {
            id: self.id.clone(),
            sender_public_key: self.sender_public_key.clone(),
            receiver_public_key: self.receiver_public_key.clone(),
            amount: self.amount,
            transaction_type: self.transaction_type.clone(),
            timestamp: self.timestamp,
            signature: self.signature.clone(),
        }
    }
}

/// The views of a sequence of extrinsics.
pub open spec fn views_of(txs: Seq<Extrinsic>) -> Seq<ExtrinsicView> {
    txs.map_values(|tx: Extrinsic| tx@)
}

/// The byte layout of an extrinsic: its fields in declaration order.
pub open spec fn extrinsic_bytes(e: ExtrinsicView) -> Seq<u8> {
    str_bytes(e.id) + str_bytes(e.sender_public_key) + str_bytes(e.receiver_public_key)
        + spec_u64_to_le_bytes(e.amount) + str_bytes(e.transaction_type)
        + spec_u64_to_le_bytes(e.timestamp) + str_bytes(e.signature)
}

/// The same extrinsic with an empty signature: what a signature signs.
pub open spec fn unsigned(e: ExtrinsicView) -> ExtrinsicView {
    ExtrinsicView { signature: Seq::empty(), ..e }
}

/// The hash of an extrinsic: the BLAKE3 digest of its layout with the
/// signature left empty.
pub open spec fn extrinsic_digest(e: ExtrinsicView) -> Seq<u8> {
    blake3_digest(extrinsic_bytes(unsigned(e)))
}

/// Appends the layout of `tx`, with `signature` in place of its own.
pub fn push_extrinsic(out: &mut Vec<u8>, tx: &Extrinsic, signature: &str)
    ensures
        final(out)@ == old(out)@ + extrinsic_bytes(ExtrinsicView { signature: signature@, ..tx@ }),
{
    push_str(out, tx.id.as_str());
    push_str(out, tx.sender_public_key.as_str());
    push_str(out, tx.receiver_public_key.as_str());
    push_u64(out, tx.amount);
    push_str(out, tx.transaction_type.as_str());
    push_u64(out, tx.timestamp);
    push_str(out, signature);
    assert(final(out)@ =~= old(out)@ + extrinsic_bytes(ExtrinsicView { signature: signature@, ..tx@ }));
}

/// Whether the UTF-8 lengths of an extrinsic's strings fit their eight-byte
/// prefixes.
pub open spec fn extrinsic_fits(e: ExtrinsicView) -> bool {
    &&& str_fits(e.id)
    &&& str_fits(e.sender_public_key)
    &&& str_fits(e.receiver_public_key)
    &&& str_fits(e.transaction_type)
    &&& str_fits(e.signature)
}

/// An extrinsic's layout can be read back off the front of a layout.
pub proof fn lemma_extrinsic_prefix(e1: ExtrinsicView, e2: ExtrinsicView, rest1: Seq<u8>, rest2: Seq<u8>)
    requires
        extrinsic_fits(e1),
        extrinsic_fits(e2),
        extrinsic_bytes(e1) + rest1 == extrinsic_bytes(e2) + rest2,
    ensures
        e1 == e2,
        rest1 == rest2,
{
    let t1 = str_bytes(e1.signature) + rest1;
    let t2 = str_bytes(e2.signature) + rest2;
    let s1 = spec_u64_to_le_bytes(e1.timestamp) + t1;
    let s2 = spec_u64_to_le_bytes(e2.timestamp) + t2;
    let y1 = str_bytes(e1.transaction_type) + s1;
    let y2 = str_bytes(e2.transaction_type) + s2;
    let a1 = spec_u64_to_le_bytes(e1.amount) + y1;
    let a2 = spec_u64_to_le_bytes(e2.amount) + y2;
    let v1 = str_bytes(e1.receiver_public_key) + a1;
    let v2 = str_bytes(e2.receiver_public_key) + a2;
    let u1 = str_bytes(e1.sender_public_key) + v1;
    let u2 = str_bytes(e2.sender_public_key) + v2;
    lemma_regroup8(str_bytes(e1.id), str_bytes(e1.sender_public_key), str_bytes(e1.receiver_public_key),
        spec_u64_to_le_bytes(e1.amount), str_bytes(e1.transaction_type), spec_u64_to_le_bytes(e1.timestamp),
        str_bytes(e1.signature), rest1);
    lemma_regroup8(str_bytes(e2.id), str_bytes(e2.sender_public_key), str_bytes(e2.receiver_public_key),
        spec_u64_to_le_bytes(e2.amount), str_bytes(e2.transaction_type), spec_u64_to_le_bytes(e2.timestamp),
        str_bytes(e2.signature), rest2);
    lemma_str_prefix(e1.id, e2.id, u1, u2);
    lemma_str_prefix(e1.sender_public_key, e2.sender_public_key, v1, v2);
    lemma_str_prefix(e1.receiver_public_key, e2.receiver_public_key, a1, a2);
    lemma_u64_prefix(e1.amount, e2.amount, y1, y2);
    lemma_str_prefix(e1.transaction_type, e2.transaction_type, s1, s2);
    lemma_u64_prefix(e1.timestamp, e2.timestamp, t1, t2);
    lemma_str_prefix(e1.signature, e2.signature, rest1, rest2);
    assert(e1 =~= e2);
}

/// The hash of an extrinsic is the BLAKE3 digest of its unsigned layout, and
/// that layout records every field but the signature: two extrinsics hash the
/// same layout exactly when they agree on all of those fields.
pub proof fn lemma_extrinsic_digest_covers_contents(e1: ExtrinsicView, e2: ExtrinsicView)
    requires
        extrinsic_fits(e1),
        extrinsic_fits(e2),
    ensures
        extrinsic_digest(e1) == blake3_digest(extrinsic_bytes(unsigned(e1))),
        (extrinsic_bytes(unsigned(e1)) == extrinsic_bytes(unsigned(e2))) <==> (unsigned(e1) == unsigned(e2)),
{
    assert(vstd::utf8::encode_utf8(Seq::<char>::empty()) =~= Seq::<u8>::empty());
    if extrinsic_bytes(unsigned(e1)) == extrinsic_bytes(unsigned(e2)) {
        assert(extrinsic_bytes(unsigned(e1)) + Seq::<u8>::empty() =~= extrinsic_bytes(unsigned(e1)));
        assert(extrinsic_bytes(unsigned(e2)) + Seq::<u8>::empty() =~= extrinsic_bytes(unsigned(e2)));
        lemma_extrinsic_prefix(unsigned(e1), unsigned(e2), Seq::empty(), Seq::empty());
    }
}

/// The hash of an extrinsic does not depend on its signature, so signing an
/// extrinsic leaves the hash that was signed unchanged.
pub proof fn lemma_digest_ignores_signature(e: ExtrinsicView, signature: Seq<char>)
    ensures
        extrinsic_digest(ExtrinsicView { signature, ..e }) == extrinsic_digest(e),
{
    assert(unsigned(ExtrinsicView { signature, ..e }) =~= unsigned(e));
}

impl Extrinsic {
    /// The BLAKE3 hash of the extrinsic, taken with its signature cleared.
    pub fn hash_data(&self) -> (digest: [u8; 32])
        ensures
            digest@ == extrinsic_digest(self@),
    {
        let mut bytes: Vec<u8> = Vec::new();
        let empty = String::new();
        push_extrinsic(&mut bytes, self, empty.as_str());
        assert(bytes@ =~= extrinsic_bytes(unsigned(self@)));
        blake3_hash(bytes.as_slice())
    }

    /// Whether two extrinsics have the same contents.
    pub fn same_as(&self, other: &Extrinsic) -> (same: bool)
        ensures
            same == (self@ == other@),
    {
        let same = self.id == other.id && self.sender_public_key == other.sender_public_key
            && self.receiver_public_key == other.receiver_public_key && self.amount == other.amount
            && self.transaction_type == other.transaction_type && self.timestamp == other.timestamp
            && self.signature == other.signature;
        proof {
            if same {
                assert(self@ =~= other@);
            }
        }
        same
    }
}

/// Whether `tx` has the same contents as one of `txs`.
pub fn occurs_in(tx: &Extrinsic, txs: &[Extrinsic]) -> (found: bool)
    ensures
        found == views_of(txs@).contains(tx@),
{
    let mut i: usize = 0;
    while i < txs.len()
        invariant
            i <= txs@.len(),
            forall|k: int| 0 <= k < i ==> txs@[k]@ != tx@,
        decreases txs@.len() - i,
    {
        if txs[i].same_as(tx) {
            assert(views_of(txs@)[i as int] == tx@);
            return true;
        }
        i = i + 1;
    }
    proof {
        if views_of(txs@).contains(tx@) {
            let k = choose|k: int| 0 <= k < views_of(txs@).len() && views_of(txs@)[k] == tx@;
            assert(txs@[k]@ == tx@);
        }
    }
    false
}

/// The pool of transactions waiting for a block. No two of them have the same
/// contents, so the pool behaves as a set.
pub struct MemPool {
    transaction_pool: Vec<Extrinsic>,
}

impl View for MemPool {
    type V = Set<ExtrinsicView>;

    closed spec fn view(&self) -> Set<ExtrinsicView> {
        views_of(self.transaction_pool@).to_set()
    }
}

impl MemPool {
    #[verifier::type_invariant]
    spec fn no_repeats(&self) -> bool {
        views_of(self.transaction_pool@).no_duplicates()
    }

    /// An empty pool.
    pub fn new() -> (pool: Self)
        ensures
            pool@ == Set::<ExtrinsicView>::empty(),
    {
        let pool = MemPool { transaction_pool: Vec::new() };
        assert(pool@ =~= Set::<ExtrinsicView>::empty());
        pool
    }

    /// Whether a transaction with the contents of `tx` is in the pool.
    pub fn contains(&self, tx: &Extrinsic) -> (found: bool)
        ensures
            found == self@.contains(tx@),
    {
        occurs_in(tx, self.transaction_pool.as_slice())
    }

    /// The number of transactions in the pool.
    pub fn len(&self) -> (n: usize)
        ensures
            n == self@.len(),
    {
        proof {
            use_type_invariant(self);
            views_of(self.transaction_pool@).unique_seq_to_set();
        }
        self.transaction_pool.len()
    }

    /// The transactions in the pool, each once, in no particular order.
    pub fn transaction_pool(&self) -> (txs: &[Extrinsic])
        ensures
            views_of(txs@).to_set() == self@,
            views_of(txs@).no_duplicates(),
    {
        proof {
            use_type_invariant(self);
        }
        self.transaction_pool.as_slice()
    }

    /// Adds a transaction to the pool; one with the same contents is kept only once.
    pub fn add_extrinsic(&mut self, tx: Extrinsic)
        ensures
            final(self)@ == old(self)@.insert(tx@),
    {
        proof {
            use_type_invariant(&*self);
        }
        if !self.contains(&tx) {
            let ghost before = views_of(self.transaction_pool@);
            let mut txs: Vec<Extrinsic> = Vec::new();
            std::mem::swap(&mut txs, &mut self.transaction_pool);
            txs.push(tx);
            proof {
                assert(views_of(txs@) =~= before.push(tx@));
                assert(views_of(txs@).no_duplicates()) by {
                    assert forall|a: int, b: int|
                        0 <= a < b < views_of(txs@).len() implies views_of(txs@)[a] != views_of(
                        txs@,
                    )[b] by {
                        if b == before.len() {
                            assert(before.contains(before[a]));
                        }
                    }
                }
            }
            self.transaction_pool = txs;
            proof {
                assert forall|x: ExtrinsicView| #[trigger] self@.contains(x) == old(self)@.insert(
                    tx@,
                ).contains(x) by {
                    assert(views_of(self.transaction_pool@).contains(x) <==> (before.contains(x)
                        || x == tx@)) by {
                        if x == tx@ {
                            assert(views_of(self.transaction_pool@)[before.len() as int] == x);
                        }
                        if before.contains(x) {
                            let k = choose|k: int| 0 <= k < before.len() && before[k] == x;
                            assert(views_of(self.transaction_pool@)[k] == x);
                        }
                    }
                }
                assert(self@ =~= old(self)@.insert(tx@));
            }
        } else {
            assert(old(self)@.contains(tx@));
            assert(self@ =~= old(self)@.insert(tx@));
        }
    }

    /// Removes from the pool every transaction whose contents occur among
    /// `new_block_transactions`.
    pub fn pop_extrinsic(&mut self, new_block_transactions: &[Extrinsic])
        ensures
            final(self)@ == old(self)@.difference(views_of(new_block_transactions@).to_set()),
    {
        proof {
            use_type_invariant(&*self);
        }
        let ghost pool = views_of(self.transaction_pool@);
        let ghost removed = views_of(new_block_transactions@);
        let mut kept: Vec<Extrinsic> = Vec::new();
        let mut i: usize = 0;
        while i < self.transaction_pool.len()
            invariant
                i <= self.transaction_pool@.len(),
                pool == views_of(self.transaction_pool@),
                pool.no_duplicates(),
                removed == views_of(new_block_transactions@),
                views_of(kept@).no_duplicates(),
                forall|x: ExtrinsicView|
                    #[trigger] views_of(kept@).contains(x) <==> (pool.take(i as int).contains(x)
                        && !removed.contains(x)),
            decreases self.transaction_pool@.len() - i,
        {
            let tx = &self.transaction_pool[i];
            let ghost prev_kept = views_of(kept@);
            assert(forall|x: ExtrinsicView| #[trigger] prev_kept.contains(x) <==> (pool.take(i as int).contains(x)
                        && !removed.contains(x)));
            assert(pool.take(i + 1) =~= pool.take(i as int).push(tx@));
            assert forall|x: ExtrinsicView| #[trigger] pool.take(i + 1).contains(x) <==> (pool.take(
                i as int,
            ).contains(x) || x == tx@) by {
                if x == tx@ {
                    assert(pool.take(i + 1)[i as int] == x);
                }
                if pool.take(i as int).contains(x) {
                    let k = choose|k: int| 0 <= k < i && pool.take(i as int)[k] == x;
                    assert(pool.take(i + 1)[k] == x);
                }
                if pool.take(i + 1).contains(x) {
                    let k = choose|k: int| 0 <= k < i + 1 && #[trigger] pool.take(i + 1)[k] == x;
                    if k < i {
                        assert(pool.take(i as int)[k] == x);
                    }
                }
            }
            assert(!pool.take(i as int).contains(tx@)) by {
                if pool.take(i as int).contains(tx@) {
                    let k = choose|k: int| 0 <= k < i && pool.take(i as int)[k] == tx@;
                    assert(pool[k] == pool[i as int]);
                }
            }
            let found = occurs_in(tx, new_block_transactions);
            if !found {
                kept.push(tx.clone());
                proof {
                    assert forall|x: ExtrinsicView| #[trigger] views_of(kept@).contains(x) <==> (
                    prev_kept.contains(x) || x == tx@) by {
                        if x == tx@ {
                            assert(views_of(kept@)[prev_kept.len() as int] == x);
                        }
                        if prev_kept.contains(x) {
                            let k = choose|k: int| 0 <= k < prev_kept.len() && prev_kept[k] == x;
                            assert(views_of(kept@)[k] == x);
                        }
                        if views_of(kept@).contains(x) {
                            let k = choose|k: int| 0 <= k < views_of(kept@).len() && views_of(kept@)[k] == x;
                            if k < prev_kept.len() {
                                assert(prev_kept[k] == x);
                            }
                        }
                    }
                    assert(views_of(kept@) =~= prev_kept.push(tx@));
                    assert forall|a: int, b: int|
                        0 <= a < b < views_of(kept@).len() implies views_of(kept@)[a] != views_of(
                        kept@,
                    )[b] by {
                        if b == prev_kept.len() {
                            assert(prev_kept.contains(prev_kept[a]));
                        }
                    }
                }
            }
            assert forall|x: ExtrinsicView| #[trigger] views_of(kept@).contains(x) <==> (pool.take(
                i + 1,
            ).contains(x) && !removed.contains(x)) by {
                assert(prev_kept.contains(x) <==> (pool.take(i as int).contains(x) && !removed.contains(x)));
                assert(pool.take(i + 1).contains(x) <==> (pool.take(i as int).contains(x) || x == tx@));
                if found {
                    assert(views_of(kept@) == prev_kept);
                } else {
                    assert(views_of(kept@).contains(x) <==> (prev_kept.contains(x) || x == tx@));
                }
            }
            i = i + 1;
        }
        self.transaction_pool = kept;
        proof {
            assert(pool.take(pool.len() as int) =~= pool);
            assert forall|x: ExtrinsicView| #[trigger] self@.contains(x) == old(self)@.difference(
                removed.to_set(),
            ).contains(x) by {
                assert(views_of(kept@).contains(x) == views_of(self.transaction_pool@).contains(x));
                assert(self@.contains(x) == views_of(kept@).contains(x));
                assert(old(self)@.contains(x) == pool.contains(x));
                assert(removed.to_set().contains(x) == removed.contains(x));
            }
            assert(self@ =~= old(self)@.difference(removed.to_set()));
        }
    }
}

impl Default for MemPool {
    fn default() -> (pool: Self)
        ensures
            pool@ == Set::<ExtrinsicView>::empty(),
    {
        MemPool::new()
    }
}

} // verus!
