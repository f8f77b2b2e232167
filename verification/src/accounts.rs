//! Account balances, how a sequence of transfers settles on them, and the
//! total supply that settling keeps.

use vstd::prelude::*;
use vstd::hash_map::StringHashMap;
use vstd::string::StringExecFns;
use crate::extrinsic::{Extrinsic, ExtrinsicView, views_of};

verus! {

broadcast use vstd::set::group_set_axioms;

/// The balance of an account: 0 for an account that has no entry.
pub open spec fn balance_of(m: Map<Seq<char>, u64>, k: Seq<char>) -> u64 {
    if m.contains_key(k) {
        m[k]
    } else {
        0
    }
}

/// The balances after an account is looked up: an account without an entry
/// gets one holding 0; every balance stays as it was.
pub open spec fn touched(m: Map<Seq<char>, u64>, k: Seq<char>) -> Map<Seq<char>, u64> {
    m.insert(k, balance_of(m, k))
}

/// Looking an account up changes no balance.
pub proof fn lemma_touch_keeps_balances(m: Map<Seq<char>, u64>, k: Seq<char>, j: Seq<char>)
    ensures
        balance_of(touched(m, k), j) == balance_of(m, j),
{
}

/// Crediting an account with what was just debited from it gives it back its
/// balance: the result is the balances as they were, with the account opened.
pub proof fn lemma_debit_then_credit(m: Map<Seq<char>, u64>, k: Seq<char>, amount: u64)
    requires
        balance_of(m, k) >= amount,
    ensures
        ({
            let debited = m.insert(k, (balance_of(m, k) - amount) as u64);
            debited.insert(k, (balance_of(debited, k) + amount) as u64) == touched(m, k)
        }),
{
    let debited = m.insert(k, (balance_of(m, k) - amount) as u64);
    assert(debited.insert(k, (balance_of(debited, k) + amount) as u64) =~= touched(m, k));
}

/// The message of a refused debit.
pub open spec fn insufficient_funds_message(k: Seq<char>) -> Seq<char> {
    "Insufficient funds for account: "@ + k
}

/// One transfer. A sender that cannot cover the amount is only looked up; a
/// sender that can is debited, then the receiver is credited. `None` where
/// the credit would exceed `u64::MAX`.
pub open spec fn transfer(m: Map<Seq<char>, u64>, t: ExtrinsicView) -> Option<Map<Seq<char>, u64>> {
    let sender = t.sender_public_key;
    let receiver = t.receiver_public_key;
    if balance_of(m, sender) >= t.amount {
        let debited = m.insert(sender, (balance_of(m, sender) - t.amount) as u64);
        if balance_of(debited, receiver) + t.amount <= u64::MAX {
            Some(debited.insert(receiver, (balance_of(debited, receiver) + t.amount) as u64))
        } else {
            None
        }
    } else {
        Some(touched(m, sender))
    }
}

/// The transfers of `txs`, in order; `None` where one of them would overflow.
pub open spec fn settle(m: Map<Seq<char>, u64>, txs: Seq<ExtrinsicView>) -> Option<Map<Seq<char>, u64>>
    decreases txs.len(),
{
    if txs.len() == 0 {
        Some(m)
    } else {
        match settle(m, txs.drop_last()) {
            Some(m1) => transfer(m1, txs.last()),
            None => None,
        }
    }
}

/// The sum of the balances of the accounts in `s`.
pub open spec fn sum_over(m: Map<Seq<char>, u64>, s: Set<Seq<char>>) -> int
    decreases s.len(),
    when s.finite()
{
    if s.len() == 0 {
        0
    } else {
        let k = s.choose();
        balance_of(m, k) + sum_over(m, s.remove(k))
    }
}

/// The total supply: the sum of all balances.
pub open spec fn total(m: Map<Seq<char>, u64>) -> int {
    sum_over(m, m.dom())
}

proof fn lemma_sum_remove(m: Map<Seq<char>, u64>, s: Set<Seq<char>>, x: Seq<char>)
    requires
        s.finite(),
        s.contains(x),
    ensures
        sum_over(m, s) == balance_of(m, x) + sum_over(m, s.remove(x)),
    decreases s.len(),
{
    let k = s.choose();
    if k != x {
        lemma_sum_remove(m, s.remove(k), x);
        lemma_sum_remove(m, s.remove(x), k);
        assert(s.remove(k).remove(x) =~= s.remove(x).remove(k));
    }
}

proof fn lemma_sum_agree(m1: Map<Seq<char>, u64>, m2: Map<Seq<char>, u64>, s: Set<Seq<char>>)
    requires
        s.finite(),
        forall|k: Seq<char>| s.contains(k) ==> balance_of(m1, k) == balance_of(m2, k),
    ensures
        sum_over(m1, s) == sum_over(m2, s),
    decreases s.len(),
{
    if s.len() != 0 {
        let k = s.choose();
        lemma_sum_agree(m1, m2, s.remove(k));
    }
}

proof fn lemma_sum_nonnegative(m: Map<Seq<char>, u64>, s: Set<Seq<char>>)
    requires
        s.finite(),
    ensures
        sum_over(m, s) >= 0,
    decreases s.len(),
{
    if s.len() != 0 {
        lemma_sum_nonnegative(m, s.remove(s.choose()));
    }
}

proof fn lemma_balance_within_total(m: Map<Seq<char>, u64>, k: Seq<char>)
    requires
        m.dom().finite(),
    ensures
        balance_of(m, k) <= total(m),
{
    lemma_sum_nonnegative(m, m.dom());
    if m.dom().contains(k) {
        lemma_sum_remove(m, m.dom(), k);
        lemma_sum_nonnegative(m, m.dom().remove(k));
    }
}

proof fn lemma_total_insert(m: Map<Seq<char>, u64>, k: Seq<char>, v: u64)
    requires
        m.dom().finite(),
    ensures
        m.insert(k, v).dom().finite(),
        total(m.insert(k, v)) == total(m) - balance_of(m, k) + v,
{
    let m2 = m.insert(k, v);
    let rest = m.dom().remove(k);
    assert(m2.dom().remove(k) =~= rest);
    lemma_sum_remove(m2, m2.dom(), k);
    lemma_sum_agree(m2, m, rest);
    if m.dom().contains(k) {
        lemma_sum_remove(m, m.dom(), k);
    } else {
        assert(rest =~= m.dom());
    }
}

proof fn lemma_transfer_conserves(m: Map<Seq<char>, u64>, t: ExtrinsicView)
    requires
        m.dom().finite(),
        transfer(m, t) is Some,
    ensures
        transfer(m, t)->0.dom().finite(),
        total(transfer(m, t)->0) == total(m),
{
    let sender = t.sender_public_key;
    let receiver = t.receiver_public_key;
    if balance_of(m, sender) >= t.amount {
        let debited = m.insert(sender, (balance_of(m, sender) - t.amount) as u64);
        lemma_total_insert(m, sender, (balance_of(m, sender) - t.amount) as u64);
        lemma_total_insert(debited, receiver, (balance_of(debited, receiver) + t.amount) as u64);
    } else {
        lemma_total_insert(m, sender, balance_of(m, sender));
    }
}

proof fn lemma_transfer_fits(m: Map<Seq<char>, u64>, t: ExtrinsicView)
    requires
        m.dom().finite(),
        total(m) <= u64::MAX,
    ensures
        transfer(m, t) is Some,
{
    let sender = t.sender_public_key;
    let receiver = t.receiver_public_key;
    if balance_of(m, sender) >= t.amount {
        let debited = m.insert(sender, (balance_of(m, sender) - t.amount) as u64);
        lemma_total_insert(m, sender, (balance_of(m, sender) - t.amount) as u64);
        lemma_balance_within_total(debited, receiver);
    }
}

/// Settling transfers keeps the total supply: the balances after settling add
/// up to what they added up to before.
pub proof fn lemma_settle_conserves_total(m: Map<Seq<char>, u64>, txs: Seq<ExtrinsicView>)
    requires
        m.dom().finite(),
        settle(m, txs) is Some,
    ensures
        settle(m, txs)->0.dom().finite(),
        total(settle(m, txs)->0) == total(m),
    decreases txs.len(),
{
    if txs.len() != 0 {
        lemma_settle_conserves_total(m, txs.drop_last());
        lemma_transfer_conserves(settle(m, txs.drop_last())->0, txs.last());
    }
}

/// While the total supply fits in a `u64`, no credit of a sequence of
/// transfers can overflow, so settling them always succeeds.
pub proof fn lemma_settle_within_supply(m: Map<Seq<char>, u64>, txs: Seq<ExtrinsicView>)
    requires
        m.dom().finite(),
        total(m) <= u64::MAX,
    ensures
        settle(m, txs) is Some,
    decreases txs.len(),
{
    if txs.len() != 0 {
        lemma_settle_within_supply(m, txs.drop_last());
        lemma_settle_conserves_total(m, txs.drop_last());
        lemma_transfer_fits(settle(m, txs.drop_last())->0, txs.last());
    }
}

/// A prefix of transfers that settle also settles.
pub proof fn lemma_settle_prefix(m: Map<Seq<char>, u64>, txs: Seq<ExtrinsicView>, n: int)
    requires
        0 <= n <= txs.len(),
        settle(m, txs) is Some,
    ensures
        settle(m, txs.take(n)) is Some,
    decreases txs.len(),
{
    if n < txs.len() {
        assert(txs.drop_last().take(n) =~= txs.take(n));
        lemma_settle_prefix(m, txs.drop_last(), n);
    } else {
        assert(txs.take(n) =~= txs);
    }
}

/// Settling one more transfer: the step from a prefix to the next one.
pub proof fn lemma_settle_step(m: Map<Seq<char>, u64>, txs: Seq<ExtrinsicView>, n: int)
    requires
        0 <= n < txs.len(),
    ensures
        settle(m, txs.take(n + 1)) == match settle(m, txs.take(n)) {
            Some(m1) => transfer(m1, txs[n]),
            None => None,
        },
{
    assert(txs.take(n + 1).drop_last() =~= txs.take(n));
}

/// The balances of the ledger's accounts.
pub struct Accounts {
    balances: StringHashMap<u64>,
}

impl View for Accounts {
    type V = Map<Seq<char>, u64>;

    closed spec fn view(&self) -> Map<Seq<char>, u64> {
        self.balances@
    }
}

impl Accounts {
    #[verifier::type_invariant]
    pub(crate) closed spec fn finitely_many(&self) -> bool {
        self.balances@.dom().finite()
    }

    /// What the invariant says of the balances: finitely many accounts.
    pub(crate) proof fn lemma_finitely_many(&self)
        requires
            self.finitely_many(),
        ensures
            self@.dom().finite(),
    {
    }

    /// No accounts.
    pub fn new() -> (accounts: Self)
        ensures
            accounts@ == Map::<Seq<char>, u64>::empty(),
            accounts@.dom().finite(),
    {
        Accounts { balances: StringHashMap::new() }
    }

    fn set_balance(&mut self, public_key: String, amount: u64)
        ensures
            final(self)@ == old(self)@.insert(public_key@, amount),
            final(self)@.dom().finite(),
    {
        proof {
            use_type_invariant(&*self);
        }
        let mut balances = StringHashMap::new();
        std::mem::swap(&mut balances, &mut self.balances);
        balances.insert(public_key, amount);
        self.balances = balances;
    }

    /// The balance of an account, 0 where it has no entry; nothing changes.
    pub fn balance(&self, public_key: &str) -> (amount: u64)
        ensures
            amount == balance_of(self@, public_key@),
    {
        match self.balances.get(public_key) {
            Some(amount) => *amount,
            None => 0,
        }
    }

    /// Opens an account with balance 0; an existing account keeps its balance.
    pub fn add_account(&mut self, public_key: String)
        ensures
            final(self)@ == touched(old(self)@, public_key@),
            final(self)@.dom().finite(),
    {
        let amount = self.balance(public_key.as_str());
        self.set_balance(public_key, amount);
    }

    /// The balance of an account, which is opened with 0 where it has no entry.
    pub fn get_balance(&mut self, public_key: &str) -> (amount: u64)
        ensures
            amount == balance_of(old(self)@, public_key@),
            final(self)@ == touched(old(self)@, public_key@),
            final(self)@.dom().finite(),
    {
        let amount = self.balance(public_key);
        self.set_balance(public_key.to_owned(), amount);
        amount
    }

    /// Credits an account, opening it where it has no entry.
    pub fn add_balance(&mut self, public_key: &str, amount: u64)
        requires
            balance_of(old(self)@, public_key@) + amount <= u64::MAX,
        ensures
            final(self)@ == old(self)@.insert(
                public_key@,
                (balance_of(old(self)@, public_key@) + amount) as u64,
            ),
            final(self)@.dom().finite(),
    {
        let balance = self.balance(public_key);
        self.set_balance(public_key.to_owned(), balance + amount);
    }

    /// Debits an account that holds at least `amount`; otherwise refuses, with
    /// the account only opened where it had no entry.
    pub fn sub_balance(&mut self, public_key: &str, amount: u64) -> (result: Result<(), String>)
        ensures
            final(self)@.dom().finite(),
            balance_of(old(self)@, public_key@) >= amount ==> {
                &&& result is Ok
                &&& final(self)@ == old(self)@.insert(
                    public_key@,
                    (balance_of(old(self)@, public_key@) - amount) as u64,
                )
            },
            balance_of(old(self)@, public_key@) < amount ==> {
                &&& result is Err
                &&& result->Err_0@ == insufficient_funds_message(public_key@)
                &&& final(self)@ == touched(old(self)@, public_key@)
            },
    {
        let balance = self.balance(public_key);
        if balance >= amount {
            self.set_balance(public_key.to_owned(), balance - amount);
            Ok(())
        } else {
            self.set_balance(public_key.to_owned(), balance);
            let mut message = String::from_str("Insufficient funds for account: ");
            message.append(public_key);
            Err(message)
        }
    }

    /// Whether the transfers of `transactions` settle on these balances
    /// without an overflowing credit.
    pub fn can_settle(&self, transactions: &[Extrinsic]) -> (settles: bool)
        ensures
            settles == settle(self@, views_of(transactions@)) is Some,
    {
        let ghost base = self@;
        let ghost txs = views_of(transactions@);
        let mut changed: StringHashMap<u64> = StringHashMap::new();
        let mut i: usize = 0;
        assert(base.union_prefer_right(changed@) =~= base);
        assert(txs.take(0) =~= Seq::<ExtrinsicView>::empty());
        while i < transactions.len()
            invariant
                i <= transactions@.len(),
                base == self@,
                txs == views_of(transactions@),
                settle(base, txs.take(i as int)) == Some(base.union_prefer_right(changed@)),
            decreases transactions@.len() - i,
        {
            let tx = &transactions[i];
            let ghost now = base.union_prefer_right(changed@);
            proof {
                lemma_settle_step(base, txs, i as int);
                assert(txs[i as int] == tx@);
            }
            let sender_balance = match changed.get(tx.sender_public_key.as_str()) {
                Some(b) => *b,
                None => self.balance(tx.sender_public_key.as_str()),
            };
            assert(sender_balance == balance_of(now, tx.sender_public_key@));
            if sender_balance >= tx.amount {
                changed.insert(tx.sender_public_key.clone(), sender_balance - tx.amount);
                let ghost debited = base.union_prefer_right(changed@);
                assert(debited =~= now.insert(tx.sender_public_key@, (sender_balance - tx.amount) as u64));
                let receiver_balance = match changed.get(tx.receiver_public_key.as_str()) {
                    Some(b) => *b,
                    None => self.balance(tx.receiver_public_key.as_str()),
                };
                assert(receiver_balance == balance_of(debited, tx.receiver_public_key@));
                if receiver_balance > u64::MAX - tx.amount {
                    proof {
                        if settle(base, txs) is Some {
                            lemma_settle_prefix(base, txs, i + 1);
                        }
                    }
                    return false;
                }
                changed.insert(tx.receiver_public_key.clone(), receiver_balance + tx.amount);
                assert(base.union_prefer_right(changed@) =~= debited.insert(
                    tx.receiver_public_key@,
                    (receiver_balance + tx.amount) as u64,
                ));
            } else {
                changed.insert(tx.sender_public_key.clone(), sender_balance);
                assert(base.union_prefer_right(changed@) =~= touched(now, tx.sender_public_key@));
            }
            i = i + 1;
        }
        assert(txs.take(transactions@.len() as int) =~= txs);
        true
    }
}

impl Default for Accounts {
    fn default() -> (accounts: Self)
        ensures
            accounts@ == Map::<Seq<char>, u64>::empty(),
    {
        Accounts::new()
    }
}

} // verus!
