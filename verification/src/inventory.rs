//! The inventory engine: the one owner of stock quantities.
//!
//! A stock ledger is modelled as a map from article code to quantity. Every
//! operation is a single step on that map, so any run of concurrent requests
//! is some sequence of these steps.

use vstd::prelude::*;
use crate::model::Inventory;

verus! {

/// Why a decrement was refused.
#[derive(Debug, Clone, Copy, PartialEq, Eq, Structural)]
pub enum StockError {
    /// No stock record exists for the article.
    NotFound,
    /// The record holds less than was asked for.
    InsufficientStock,
}

/// Every quantity of the ledger is one that a record can hold.
pub open spec fn stock_valid(m: Map<Seq<char>, int>) -> bool {
    forall|s: Seq<char>| m.dom().contains(s) ==> 0 <= #[trigger] m[s] <= i32::MAX
}

/// What the ledger answers to a query for `sku`.
pub open spec fn stock_level(m: Map<Seq<char>, int>, sku: Seq<char>) -> Option<int> {
    if m.dom().contains(sku) {
        Some(m[sku])
    } else {
        None
    }
}

/// What a decrement of `amount` units of `sku` answers: the new quantity, or
/// the reason for refusing.
pub open spec fn decrement_outcome(m: Map<Seq<char>, int>, sku: Seq<char>, amount: int) -> Result<
    int,
    StockError,
> {
    if !m.dom().contains(sku) {
        Err(StockError::NotFound)
    } else if m[sku] < amount {
        Err(StockError::InsufficientStock)
    } else {
        Ok(m[sku] - amount)
    }
}

/// The ledger after a decrement was attempted: changed only where it was granted.
pub open spec fn after_decrement(m: Map<Seq<char>, int>, sku: Seq<char>, amount: int) -> Map<
    Seq<char>,
    int,
> {
    match decrement_outcome(m, sku, amount) {
        Ok(q) => m.insert(sku, q),
        Err(_) => m,
    }
}

/// The ledger after `sku` was seeded with `initial`: an existing record stays as it is.
pub open spec fn seeded(m: Map<Seq<char>, int>, sku: Seq<char>, initial: int) -> Map<
    Seq<char>,
    int,
> {
    if m.dom().contains(sku) {
        m
    } else {
        m.insert(sku, initial)
    }
}

/// What a restock of `amount` units of `sku` answers: the new quantity, or
/// nothing where there is no record or the record cannot hold the sum.
pub open spec fn restock_outcome(m: Map<Seq<char>, int>, sku: Seq<char>, amount: int) -> Option<
    int,
> {
    if m.dom().contains(sku) && m[sku] + amount <= i32::MAX {
        Some(m[sku] + amount)
    } else {
        None
    }
}

/// The ledger after a restock was attempted: changed only where it was possible.
pub open spec fn after_restock(m: Map<Seq<char>, int>, sku: Seq<char>, amount: int) -> Map<
    Seq<char>,
    int,
> {
    match restock_outcome(m, sku, amount) {
        Some(q) => m.insert(sku, q),
        None => m,
    }
}

/// The ledger after the first `k` of a run of decrement attempts on `sku`,
/// taken one after the other.
pub open spec fn after_attempts(
    m: Map<Seq<char>, int>,
    sku: Seq<char>,
    amounts: Seq<int>,
    k: nat,
) -> Map<Seq<char>, int>
    decreases k,
{
    if k == 0 {
        m
    } else {
        after_decrement(after_attempts(m, sku, amounts, (k - 1) as nat), sku, amounts[k - 1])
    }
}

/// The sum of the amounts that were granted among the first `k` attempts.
pub open spec fn granted(m: Map<Seq<char>, int>, sku: Seq<char>, amounts: Seq<int>, k: nat) -> int
    decreases k,
{
    if k == 0 {
        0
    } else {
        let before = after_attempts(m, sku, amounts, (k - 1) as nat);
        granted(m, sku, amounts, (k - 1) as nat) + if decrement_outcome(
            before,
            sku,
            amounts[k - 1],
        ).is_ok() {
            amounts[k - 1]
        } else {
            0
        }
    }
}

/// Decrements never hand out more than there was: whatever the order in
/// which attempts on one article take effect, the granted amounts sum to at
/// most the initial quantity, the final quantity is the initial one less
/// that sum, and no other article is touched.
pub proof fn lemma_decrements_conserve_stock(
    m: Map<Seq<char>, int>,
    sku: Seq<char>,
    amounts: Seq<int>,
    k: nat,
)
    requires
        m.dom().contains(sku),
        m[sku] >= 0,
        k <= amounts.len(),
        forall|i: int| 0 <= i < amounts.len() ==> amounts[i] > 0,
    ensures
        0 <= granted(m, sku, amounts, k) <= m[sku],
        after_attempts(m, sku, amounts, k) == m.insert(sku, m[sku] - granted(m, sku, amounts, k)),
    decreases k,
{
    if k == 0 {
        assert(m.insert(sku, m[sku]) =~= m);
    } else {
        lemma_decrements_conserve_stock(m, sku, amounts, (k - 1) as nat);
        let before = after_attempts(m, sku, amounts, (k - 1) as nat);
        assert(amounts[k - 1] > 0);
        assert(after_attempts(m, sku, amounts, k) =~= m.insert(
            sku,
            m[sku] - granted(m, sku, amounts, k),
        ));
    }
}

/// Seeding is idempotent: once an article was seeded, seeding it again,
/// with whatever quantity, changes nothing.
pub proof fn lemma_seeding_idempotent(
    m: Map<Seq<char>, int>,
    sku: Seq<char>,
    first: int,
    second: int,
)
    ensures
        seeded(seeded(m, sku, first), sku, second) == seeded(m, sku, first),
        seeded(m, sku, first).dom().contains(sku),
        m.dom().contains(sku) ==> seeded(m, sku, first) == m,
{
}

/// A granted decrement followed by a restock of the same amount leaves the
/// ledger as it was.
pub proof fn lemma_restock_undoes_decrement(m: Map<Seq<char>, int>, sku: Seq<char>, amount: int)
    requires
        stock_valid(m),
        amount > 0,
        decrement_outcome(m, sku, amount).is_ok(),
    ensures
        stock_valid(after_decrement(m, sku, amount)),
        restock_outcome(after_decrement(m, sku, amount), sku, amount) == Some(m[sku]),
        after_restock(after_decrement(m, sku, amount), sku, amount) == m,
{
    assert(after_restock(after_decrement(m, sku, amount), sku, amount) =~= m);
}

/// No two records are for the same article, and no quantity is negative.
pub open spec fn records_wf(recs: Seq<Inventory>) -> bool {
    &&& forall|i: int, j: int|
        0 <= i < j < recs.len() ==> (#[trigger] recs[i]).sku@ != (#[trigger] recs[j]).sku@
    &&& forall|i: int| 0 <= i < recs.len() ==> (#[trigger] recs[i]).quantity >= 0
}

/// Some record is for `sku`.
pub open spec fn has_record(recs: Seq<Inventory>, sku: Seq<char>) -> bool {
    exists|i: int| 0 <= i < recs.len() && (#[trigger] recs[i]).sku@ == sku
}

/// The position of a record for `sku`.
pub open spec fn record_index(recs: Seq<Inventory>, sku: Seq<char>) -> int {
    choose|i: int| 0 <= i < recs.len() && (#[trigger] recs[i]).sku@ == sku
}

/// The ledger that a sequence of records stands for.
pub open spec fn stock_of(recs: Seq<Inventory>) -> Map<Seq<char>, int> {
    Map::new(
        |s: Seq<char>| has_record(recs, s),
        |s: Seq<char>| recs[record_index(recs, s)].quantity as int,
    )
}

proof fn lemma_record_at(recs: Seq<Inventory>, j: int)
    requires
        records_wf(recs),
        0 <= j < recs.len(),
    ensures
        has_record(recs, recs[j].sku@),
        record_index(recs, recs[j].sku@) == j,
        stock_of(recs).dom().contains(recs[j].sku@),
        stock_of(recs)[recs[j].sku@] == recs[j].quantity,
{
    let s = recs[j].sku@;
    assert(recs[j].sku@ == s);
    let k = record_index(recs, s);
    assert(0 <= k < recs.len() && recs[k].sku@ == s);
    if k < j {
        assert(recs[k].sku@ != recs[j].sku@);
    } else if j < k {
        assert(recs[j].sku@ != recs[k].sku@);
    }
}

proof fn lemma_no_record(recs: Seq<Inventory>, sku: Seq<char>)
    requires
        forall|j: int| 0 <= j < recs.len() ==> (#[trigger] recs[j]).sku@ != sku,
    ensures
        !stock_of(recs).dom().contains(sku),
{
}

proof fn lemma_stock_valid(recs: Seq<Inventory>)
    requires
        records_wf(recs),
    ensures
        stock_valid(stock_of(recs)),
{
    assert forall|s: Seq<char>| stock_of(recs).dom().contains(s) implies 0 <= #[trigger] stock_of(
        recs,
    )[s] <= i32::MAX by {
        let k = record_index(recs, s);
        assert(0 <= k < recs.len() && recs[k].sku@ == s);
    }
}

proof fn lemma_overwrite(before: Seq<Inventory>, after: Seq<Inventory>, i: int)
    requires
        records_wf(before),
        0 <= i < before.len(),
        after.len() == before.len(),
        forall|j: int| 0 <= j < before.len() ==> (#[trigger] after[j]).sku@ == before[j].sku@,
        forall|j: int|
            0 <= j < before.len() && j != i ==> (#[trigger] after[j]).quantity
                == before[j].quantity,
        after[i].quantity >= 0,
    ensures
        records_wf(after),
        stock_of(after) == stock_of(before).insert(before[i].sku@, after[i].quantity as int),
{
    assert(records_wf(after)) by {
        assert forall|a: int, b: int| 0 <= a < b < after.len() implies (#[trigger] after[a]).sku@
            != (#[trigger] after[b]).sku@ by {
            assert(before[a].sku@ != before[b].sku@);
        }
        assert forall|a: int| 0 <= a < after.len() implies (#[trigger] after[a]).quantity
            >= 0 by {
            if a != i {
                assert(before[a].quantity >= 0);
            }
        }
    }
    let lhs = stock_of(after);
    let rhs = stock_of(before).insert(before[i].sku@, after[i].quantity as int);
    assert forall|s: Seq<char>| lhs.dom().contains(s) <==> rhs.dom().contains(s) by {
        if has_record(after, s) {
            let k = record_index(after, s);
            assert(before[k].sku@ == s);
        }
        if has_record(before, s) {
            let k = record_index(before, s);
            assert(after[k].sku@ == s);
        }
        if s == before[i].sku@ {
            assert(after[i].sku@ == s);
        }
    }
    assert forall|s: Seq<char>| lhs.dom().contains(s) implies lhs[s] == rhs[s] by {
        let k = record_index(after, s);
        assert(0 <= k < after.len() && after[k].sku@ == s);
        lemma_record_at(after, k);
        lemma_record_at(before, k);
        if k == i {
        } else {
            assert(before[k].sku@ != before[i].sku@) by {
                if k < i {
                } else {
                }
            }
        }
    }
    assert(lhs =~= rhs);
}

proof fn lemma_append(before: Seq<Inventory>, rec: Inventory)
    requires
        records_wf(before),
        rec.quantity >= 0,
        forall|j: int| 0 <= j < before.len() ==> (#[trigger] before[j]).sku@ != rec.sku@,
    ensures
        records_wf(before.push(rec)),
        stock_of(before.push(rec)) == stock_of(before).insert(rec.sku@, rec.quantity as int),
{
    let after = before.push(rec);
    assert(records_wf(after));
    let lhs = stock_of(after);
    let rhs = stock_of(before).insert(rec.sku@, rec.quantity as int);
    assert forall|s: Seq<char>| lhs.dom().contains(s) <==> rhs.dom().contains(s) by {
        if has_record(after, s) {
            let k = record_index(after, s);
            if k < before.len() {
                assert(before[k].sku@ == s);
            }
        }
        if has_record(before, s) {
            let k = record_index(before, s);
            assert(after[k].sku@ == s);
        }
        if s == rec.sku@ {
            assert(after[before.len() as int].sku@ == s);
        }
    }
    assert forall|s: Seq<char>| lhs.dom().contains(s) implies lhs[s] == rhs[s] by {
        let k = record_index(after, s);
        assert(0 <= k < after.len() && after[k].sku@ == s);
        lemma_record_at(after, k);
        if k < before.len() {
            assert(before[k] == after[k]);
            lemma_record_at(before, k);
        }
    }
    assert(lhs =~= rhs);
}

/// The stock ledger, one record per article.
pub struct InventoryStore {
    records: Vec<Inventory>,
}

impl View for InventoryStore {
    type V = Map<Seq<char>, int>;

    closed spec fn view(&self) -> Map<Seq<char>, int> {
        stock_of(self.records@)
    }
}

impl InventoryStore {
    /// The ledger is well formed: one record per article, none negative.
    pub closed spec fn wf(&self) -> bool {
        records_wf(self.records@)
    }

    /// A well-formed ledger holds only quantities between zero and the
    /// largest a record can hold.
    pub proof fn view_in_range(&self)
        requires
            self.wf(),
        ensures
            stock_valid(self@),
    {
        lemma_stock_valid(self.records@);
    }

    /// A ledger without records.
    pub fn new() -> (store: Self)
        ensures
            store.wf(),
            store@ == Map::<Seq<char>, int>::empty(),
    {
        let store = InventoryStore { records: Vec::new() };
        assert(store@ =~= Map::<Seq<char>, int>::empty());
        store
    }

    fn position(&self, sku: &String) -> (res: Option<usize>)
        requires
            self.wf(),
        ensures
            match res {
                Some(i) => i < self.records@.len() && self.records@[i as int].sku@ == sku@
                    && self@.dom().contains(sku@) && self@[sku@]
                    == self.records@[i as int].quantity,
                None => !self@.dom().contains(sku@) && forall|j: int|
                    0 <= j < self.records@.len() ==> (#[trigger] self.records@[j]).sku@ != sku@,
            },
    {
        let mut i: usize = 0;
        while i < self.records.len()
            invariant
                self.wf(),
                i <= self.records@.len(),
                forall|j: int| 0 <= j < i ==> (#[trigger] self.records@[j]).sku@ != sku@,
            decreases self.records@.len() - i,
        {
            if self.records[i].sku == *sku {
                proof {
                    lemma_record_at(self.records@, i as int);
                }
                return Some(i);
            }
            i += 1;
        }
        proof {
            lemma_no_record(self.records@, sku@);
        }
        None
    }

    fn overwrite(&mut self, i: usize, quantity: i32)
        requires
            old(self).wf(),
            i < old(self).records@.len(),
            quantity >= 0,
        ensures
            final(self).wf(),
            final(self)@ == old(self)@.insert(old(self).records@[i as int].sku@, quantity as int),
    {
        let sku = self.records[i].sku.clone();
        let ghost before = self.records@;
        self.records.set(i, Inventory { sku, quantity });
        proof {
            lemma_overwrite(before, self.records@, i as int);
        }
    }

    /// The quantity held of `sku`, if the ledger has a record for it.
    pub fn get_quantity(&self, sku: &String) -> (res: Option<i32>)
        requires
            self.wf(),
        ensures
            match res {
                Some(q) => stock_level(self@, sku@) == Some(q as int),
                None => stock_level(self@, sku@).is_none(),
            },
    {
        match self.position(sku) {
            Some(i) => Some(self.records[i].quantity),
            None => None,
        }
    }

    /// Takes `amount` units of `sku` out of stock if the record holds that
    /// many, in one step; otherwise the ledger stays as it was.
    pub fn try_decrement(&mut self, sku: &String, amount: i32) -> (res: Result<i32, StockError>)
        requires
            old(self).wf(),
            amount > 0,
        ensures
            final(self).wf(),
            final(self)@ == after_decrement(old(self)@, sku@, amount as int),
            match res {
                Ok(q) => decrement_outcome(old(self)@, sku@, amount as int) == Ok::<
                    int,
                    StockError,
                >(q as int),
                Err(e) => decrement_outcome(old(self)@, sku@, amount as int) == Err::<
                    int,
                    StockError,
                >(e),
            },
    {
        match self.position(sku) {
            None => Err(StockError::NotFound),
            Some(i) => {
                let current = self.records[i].quantity;
                if current < amount {
                    Err(StockError::InsufficientStock)
                } else {
                    let left: i32 = current - amount;
                    self.overwrite(i, left);
                    Ok(left)
                }
            },
        }
    }

    /// Puts `amount` units of `sku` back into stock. Nothing changes where
    /// the ledger has no record for `sku` or the record cannot hold the sum.
    pub fn restock(&mut self, sku: &String, amount: i32) -> (res: Option<i32>)
        requires
            old(self).wf(),
            amount > 0,
        ensures
            final(self).wf(),
            final(self)@ == after_restock(old(self)@, sku@, amount as int),
            match res {
                Some(q) => restock_outcome(old(self)@, sku@, amount as int) == Some(q as int),
                None => restock_outcome(old(self)@, sku@, amount as int).is_none(),
            },
    {
        match self.position(sku) {
            None => None,
            Some(i) => {
                let current = self.records[i].quantity;
                if current > i32::MAX - amount {
                    None
                } else {
                    let sum: i32 = current + amount;
                    self.overwrite(i, sum);
                    Some(sum)
                }
            },
        }
    }

    /// Creates the record of `sku` with `initial` units unless one exists:
    /// an existing record keeps its quantity. Returns whether it was created.
    pub fn initialize_if_absent(&mut self, sku: String, initial: i32) -> (created: bool)
        requires
            old(self).wf(),
            initial >= 0,
        ensures
            final(self).wf(),
            final(self)@ == seeded(old(self)@, sku@, initial as int),
            created == !old(self)@.dom().contains(sku@),
    {
        match self.position(&sku) {
            Some(_) => false,
            None => {
                let ghost before = self.records@;
                let rec = Inventory { sku, quantity: initial };
                proof {
                    lemma_append(before, rec);
                }
                self.records.push(rec);
                true
            },
        }
    }

    /// Overwrites the quantity of an existing record. Without a record for
    /// `sku` nothing changes and `NotFound` is returned.
    pub fn set_quantity(&mut self, sku: &String, quantity: i32) -> (res: Result<(), StockError>)
        requires
            old(self).wf(),
            quantity >= 0,
        ensures
            final(self).wf(),
            res.is_ok() == old(self)@.dom().contains(sku@),
            res.is_ok() ==> final(self)@ == old(self)@.insert(sku@, quantity as int),
            res.is_err() ==> res == Err::<(), StockError>(StockError::NotFound) && final(self)@
                == old(self)@,
    {
        match self.position(sku) {
            None => Err(StockError::NotFound),
            Some(i) => {
                self.overwrite(i, quantity);
                Ok(())
            },
        }
    }

    /// The records of the ledger, in the order in which they were created.
    pub fn records(&self) -> (res: &Vec<Inventory>)
        requires
            self.wf(),
        ensures
            records_wf(res@),
            stock_of(res@) == self@,
    {
        &self.records
    }
}

} // verus!
