//! Order placement: every line of an order is taken out of stock, in the
//! order in which it was declared, or none is.

use vstd::prelude::*;
use crate::inventory::{
    after_decrement, after_restock, decrement_outcome, lemma_restock_undoes_decrement,
    restock_outcome, stock_valid, InventoryStore, StockError,
};
use crate::model::{
    lines, quantities_positive, quantities_positive_upto, total_upto, Line, Order, OrderItem,
};

verus! {

/// Why an order was not placed.
#[derive(Debug, Clone, Copy, PartialEq, Eq, Structural)]
pub enum OrderError {
    /// A line asks for no unit or fewer, or the declared total is not the sum of the lines.
    Validation,
    /// Some line asks for more than is in stock.
    InsufficientStock,
    /// Some line names an article without a stock record.
    NotFound,
    /// Storage was unavailable; every reservation was undone.
    Transient,
    /// A reservation could not be undone.
    Integrity,
}

/// The announcement of a placed order.
#[derive(Debug, Clone)]
pub struct OrderOutcomeEvent {
    pub order_id: u128,
    pub total: u64,
    pub items: Vec<OrderItem>,
}

/// A placed order, its announcement, and whether the announcement went out.
/// An order whose announcement did not go out stays placed.
#[derive(Debug, Clone)]
pub struct Placement {
    pub order: Order,
    pub event: OrderOutcomeEvent,
    pub delivered: bool,
}

/// The ledger after the first `k` lines were attempted in turn.
pub open spec fn reserved(m: Map<Seq<char>, int>, ls: Seq<Line>, k: nat) -> Map<Seq<char>, int>
    decreases k,
{
    if k == 0 {
        m
    } else {
        after_decrement(reserved(m, ls, (k - 1) as nat), ls[k - 1].sku, ls[k - 1].quantity)
    }
}

/// The first refusal among the first `k` lines, if there is one.
pub open spec fn refusal(m: Map<Seq<char>, int>, ls: Seq<Line>, k: nat) -> Option<StockError>
    decreases k,
{
    if k == 0 {
        None
    } else {
        match refusal(m, ls, (k - 1) as nat) {
            Some(e) => Some(e),
            None => match decrement_outcome(
                reserved(m, ls, (k - 1) as nat),
                ls[k - 1].sku,
                ls[k - 1].quantity,
            ) {
                Ok(_) => None,
                Err(e) => Some(e),
            },
        }
    }
}

/// The ledger after lines `k - 1` down to `0` were put back, in that order.
pub open spec fn released(m: Map<Seq<char>, int>, ls: Seq<Line>, k: nat) -> Map<Seq<char>, int>
    decreases k,
{
    if k == 0 {
        m
    } else {
        released(after_restock(m, ls[k - 1].sku, ls[k - 1].quantity), ls, (k - 1) as nat)
    }
}

/// Every one of lines `k - 1` down to `0` can be put back.
pub open spec fn release_complete(m: Map<Seq<char>, int>, ls: Seq<Line>, k: nat) -> bool
    decreases k,
{
    k == 0 || (restock_outcome(m, ls[k - 1].sku, ls[k - 1].quantity).is_some() && release_complete(
        after_restock(m, ls[k - 1].sku, ls[k - 1].quantity),
        ls,
        (k - 1) as nat,
    ))
}

/// How a stock refusal reads to the client.
pub open spec fn refusal_error(e: StockError) -> OrderError {
    match e {
        StockError::NotFound => OrderError::NotFound,
        StockError::InsufficientStock => OrderError::InsufficientStock,
    }
}

/// Why the placement of `request` against ledger `m` fails, if it does:
/// an inconsistent request before anything else, then the first line that
/// is refused, then storage that did not take the order.
pub open spec fn placement_failure(m: Map<Seq<char>, int>, request: Order, persisted: bool) -> Option<
    OrderError,
> {
    if !request.is_consistent() {
        Some(OrderError::Validation)
    } else {
        match refusal(m, request.lines(), request.lines().len()) {
            Some(e) => Some(refusal_error(e)),
            None => if persisted {
                None
            } else {
                Some(OrderError::Transient)
            },
        }
    }
}

/// What a placement owes: `res` is the outcome of placing `request` under
/// `order_id` against the ledger `before`, and `after` is the ledger it leaves.
/// On success every line has been taken out of stock and the order and its
/// announcement carry the identifier, the total and the lines of the request;
/// on failure the ledger is as it was.
pub open spec fn placement_holds(
    before: Map<Seq<char>, int>,
    after: Map<Seq<char>, int>,
    request: Order,
    order_id: u128,
    persisted: bool,
    published: bool,
    res: Result<Placement, OrderError>,
) -> bool {
    match res {
        Ok(p) => {
            &&& placement_failure(before, request, persisted).is_none()
            &&& after == reserved(before, request.lines(), request.lines().len())
            &&& p.order.order_id == order_id
            &&& p.order.total == request.total
            &&& p.order.lines() == request.lines()
            &&& p.event.order_id == order_id
            &&& p.event.total == request.total
            &&& lines(p.event.items@) == request.lines()
            &&& p.delivered == published
        },
        Err(e) => placement_failure(before, request, persisted) == Some(e) && after == before,
    }
}

/// A refusal, once met, stays the answer however many lines follow.
pub proof fn lemma_refusal_stays(m: Map<Seq<char>, int>, ls: Seq<Line>, k: nat, n: nat)
    requires
        k <= n,
        refusal(m, ls, k).is_some(),
    ensures
        refusal(m, ls, n) == refusal(m, ls, k),
    decreases n,
{
    if k < n {
        lemma_refusal_stays(m, ls, k, (n - 1) as nat);
    }
}

/// Reserving lines that are all granted keeps every quantity in range.
pub proof fn lemma_reserved_valid(m: Map<Seq<char>, int>, ls: Seq<Line>, k: nat)
    requires
        stock_valid(m),
        k <= ls.len(),
        quantities_positive_upto(ls, k),
        refusal(m, ls, k).is_none(),
    ensures
        stock_valid(reserved(m, ls, k)),
    decreases k,
{
    if k > 0 {
        lemma_reserved_valid(m, ls, (k - 1) as nat);
        assert(ls[k - 1].quantity > 0);
        lemma_restock_undoes_decrement(
            reserved(m, ls, (k - 1) as nat),
            ls[k - 1].sku,
            ls[k - 1].quantity,
        );
    }
}

/// The units of `sku` that the first `k` lines ask for together.
pub open spec fn demand(ls: Seq<Line>, sku: Seq<char>, k: nat) -> int
    decreases k,
{
    if k == 0 {
        0
    } else {
        demand(ls, sku, (k - 1) as nat) + if ls[k - 1].sku == sku {
            ls[k - 1].quantity
        } else {
            0
        }
    }
}

/// The ledger covers the first `k` lines: each names an article on record,
/// and of no article is more asked than there is.
pub open spec fn covered(m: Map<Seq<char>, int>, ls: Seq<Line>, k: nat) -> bool {
    &&& forall|i: int| 0 <= i < k ==> m.dom().contains((#[trigger] ls[i]).sku)
    &&& forall|s: Seq<char>| m.dom().contains(s) ==> #[trigger] demand(ls, s, k) <= m[s]
}

/// Lines that are all granted take from each article what they ask of it
/// together, and create or remove no record.
pub proof fn lemma_reserved_is_stock_less_demand(m: Map<Seq<char>, int>, ls: Seq<Line>, k: nat)
    requires
        k <= ls.len(),
        refusal(m, ls, k).is_none(),
    ensures
        reserved(m, ls, k).dom() == m.dom(),
        forall|s: Seq<char>|
            m.dom().contains(s) ==> reserved(m, ls, k)[s] == m[s] - #[trigger] demand(ls, s, k),
    decreases k,
{
    if k > 0 {
        lemma_reserved_is_stock_less_demand(m, ls, (k - 1) as nat);
        let before = reserved(m, ls, (k - 1) as nat);
        assert(decrement_outcome(before, ls[k - 1].sku, ls[k - 1].quantity).is_ok());
        assert(reserved(m, ls, k).dom() =~= m.dom());
        assert forall|s: Seq<char>| m.dom().contains(s) implies reserved(m, ls, k)[s] == m[s]
            - #[trigger] demand(ls, s, k) by {
            assert(before[s] == m[s] - demand(ls, s, (k - 1) as nat));
        }
    } else {
        assert(reserved(m, ls, k).dom() =~= m.dom());
    }
}

/// An order is granted exactly when the ledger covers it: every line is
/// taken out of stock if and only if each line names an article on record
/// and no article is asked for more than it holds, all lines together.
pub proof fn lemma_granted_iff_covered(m: Map<Seq<char>, int>, ls: Seq<Line>, k: nat)
    requires
        stock_valid(m),
        k <= ls.len(),
        quantities_positive_upto(ls, k),
    ensures
        refusal(m, ls, k).is_none() == covered(m, ls, k),
    decreases k,
{
    if k > 0 {
        let j = (k - 1) as nat;
        let l = ls[k - 1];
        assert(l.quantity > 0);
        lemma_granted_iff_covered(m, ls, j);
        if refusal(m, ls, k).is_none() {
            lemma_reserved_is_stock_less_demand(m, ls, j);
            lemma_reserved_is_stock_less_demand(m, ls, k);
            lemma_reserved_valid(m, ls, k);
            assert forall|i: int| 0 <= i < k implies m.dom().contains((#[trigger] ls[i]).sku) by {
                if i == k - 1 {
                    assert(decrement_outcome(reserved(m, ls, j), l.sku, l.quantity).is_ok());
                }
            }
            assert forall|s: Seq<char>| m.dom().contains(s) implies #[trigger] demand(ls, s, k)
                <= m[s] by {
                assert(reserved(m, ls, k)[s] == m[s] - demand(ls, s, k));
                assert(reserved(m, ls, k)[s] >= 0);
            }
        }
        if covered(m, ls, k) {
            assert forall|s: Seq<char>| m.dom().contains(s) implies #[trigger] demand(ls, s, j)
                <= m[s] by {
                assert(demand(ls, s, k) <= m[s]);
            }
            assert(covered(m, ls, j));
            lemma_reserved_is_stock_less_demand(m, ls, j);
            assert(m.dom().contains(l.sku));
            assert(demand(ls, l.sku, k) <= m[l.sku]);
            assert(reserved(m, ls, j)[l.sku] == m[l.sku] - demand(ls, l.sku, j));
            assert(decrement_outcome(reserved(m, ls, j), l.sku, l.quantity).is_ok());
        }
    }
}

/// Compensation restores the ledger: after the first `k` lines were all
/// granted, putting them back in reverse order succeeds for every line and
/// leaves each quantity as it was before the first of them was taken.
pub proof fn lemma_release_undoes_reserve(m: Map<Seq<char>, int>, ls: Seq<Line>, k: nat)
    requires
        stock_valid(m),
        k <= ls.len(),
        quantities_positive_upto(ls, k),
        refusal(m, ls, k).is_none(),
    ensures
        release_complete(reserved(m, ls, k), ls, k),
        released(reserved(m, ls, k), ls, k) == m,
    decreases k,
{
    if k > 0 {
        let before = reserved(m, ls, (k - 1) as nat);
        lemma_reserved_valid(m, ls, (k - 1) as nat);
        assert(ls[k - 1].quantity > 0);
        lemma_restock_undoes_decrement(before, ls[k - 1].sku, ls[k - 1].quantity);
        lemma_release_undoes_reserve(m, ls, (k - 1) as nat);
    }
}

/// A refused placement leaves no trace: whichever line is refused first,
/// putting back the lines before it restores the ledger.
pub proof fn lemma_refused_placement_restores(m: Map<Seq<char>, int>, ls: Seq<Line>, k: nat)
    requires
        stock_valid(m),
        k < ls.len(),
        quantities_positive_upto(ls, k),
        refusal(m, ls, k).is_none(),
        refusal(m, ls, k + 1).is_some(),
    ensures
        reserved(m, ls, k + 1) == reserved(m, ls, k),
        released(reserved(m, ls, k + 1), ls, k) == m,
{
    lemma_release_undoes_reserve(m, ls, k);
}

proof fn lemma_total_grows(ls: Seq<Line>, k: nat, n: nat)
    requires
        k <= n <= ls.len(),
        quantities_positive_upto(ls, n),
        forall|i: int| 0 <= i < ls.len() ==> (#[trigger] ls[i]).price >= 0,
    ensures
        total_upto(ls, k) <= total_upto(ls, n),
    decreases n,
{
    if k < n {
        lemma_total_grows(ls, k, (n - 1) as nat);
        let q = ls[n - 1].quantity;
        let p = ls[n - 1].price;
        assert(q > 0 && p >= 0);
        assert(q * p >= 0) by (nonlinear_arith)
            requires
                q > 0,
                p >= 0,
        ;
    }
}

/// Checks a request before anything is touched: every line asks for at
/// least one unit, and the declared total is the sum over the lines of
/// quantity times unit price.
pub fn validate(request: &Order) -> (res: Result<(), OrderError>)
    ensures
        res.is_ok() == request.is_consistent(),
        res.is_err() ==> res == Err::<(), OrderError>(OrderError::Validation),
{
    let ghost ls = request.lines();
    let n = request.items.len();
    let mut sum: u64 = 0;
    let mut i: usize = 0;
    while i < n
        invariant
            ls == request.lines(),
            n == request.items@.len(),
            i <= n,
            quantities_positive_upto(ls, i as nat),
            sum as int == total_upto(ls, i as nat),
        decreases n - i,
    {
        let item = &request.items[i];
        assert(ls[i as int] == item@);
        if item.quantity <= 0 {
            return Err(OrderError::Validation);
        }
        let ghost next = total_upto(ls, (i + 1) as nat);
        assert(next == sum as int + item.quantity as int * item.price as int);
        let grown = match (item.quantity as u64).checked_mul(item.price) {
            Some(line) => sum.checked_add(line),
            None => None,
        };
        match grown {
            Some(s) => {
                sum = s;
            },
            None => {
                proof {
                    assert(next > u64::MAX);
                    if quantities_positive(ls) {
                        lemma_total_grows(ls, (i + 1) as nat, ls.len());
                    }
                }
                return Err(OrderError::Validation);
            },
        }
        i += 1;
    }
    if sum == request.total {
        Ok(())
    } else {
        Err(OrderError::Validation)
    }
}

/// Puts lines `k - 1` down to `0` back into stock, in that order, and says
/// whether every one of them could be put back.
pub fn release(store: &mut InventoryStore, items: &Vec<OrderItem>, k: usize) -> (complete: bool)
    requires
        old(store).wf(),
        k <= items@.len(),
        quantities_positive_upto(lines(items@), k as nat),
    ensures
        final(store).wf(),
        final(store)@ == released(old(store)@, lines(items@), k as nat),
        complete == release_complete(old(store)@, lines(items@), k as nat),
{
    let ghost ls = lines(items@);
    let ghost start = store@;
    let mut complete = true;
    let mut j: usize = k;
    while j > 0
        invariant
            store.wf(),
            ls == lines(items@),
            j <= k <= items@.len(),
            quantities_positive_upto(ls, k as nat),
            released(store@, ls, j as nat) == released(start, ls, k as nat),
            (complete && release_complete(store@, ls, j as nat)) == release_complete(
                start,
                ls,
                k as nat,
            ),
        decreases j,
    {
        j -= 1;
        let item = &items[j];
        assert(ls[j as int] == item@);
        assert(ls[j as int].quantity > 0);
        if store.restock(&item.sku, item.quantity).is_none() {
            complete = false;
        }
    }
    complete
}

/// Takes every line out of stock, in the order of declaration. At the first
/// line that is refused, the lines before it are put back and the refusal is
/// returned: the ledger is then as it was.
pub fn reserve_all(store: &mut InventoryStore, items: &Vec<OrderItem>) -> (res: Result<
    (),
    StockError,
>)
    requires
        old(store).wf(),
        quantities_positive(lines(items@)),
    ensures
        final(store).wf(),
        match res {
            Ok(()) => refusal(old(store)@, lines(items@), items@.len()).is_none() && final(store)@
                == reserved(old(store)@, lines(items@), items@.len()),
            Err(e) => refusal(old(store)@, lines(items@), items@.len()) == Some(e) && final(store)@
                == old(store)@,
        },
{
    let ghost ls = lines(items@);
    let ghost start = store@;
    proof {
        store.view_in_range();
    }
    let n = items.len();
    let mut i: usize = 0;
    while i < n
        invariant
            store.wf(),
            ls == lines(items@),
            n == items@.len(),
            i <= n,
            start == old(store)@,
            stock_valid(start),
            quantities_positive(ls),
            refusal(start, ls, i as nat).is_none(),
            store@ == reserved(start, ls, i as nat),
        decreases n - i,
    {
        let item = &items[i];
        assert(ls[i as int] == item@);
        assert(ls[i as int].quantity > 0);
        match store.try_decrement(&item.sku, item.quantity) {
            Ok(_) => {},
            Err(e) => {
                proof {
                    assert(refusal(start, ls, (i + 1) as nat) == Some(e));
                    lemma_refusal_stays(start, ls, (i + 1) as nat, n as nat);
                    lemma_release_undoes_reserve(start, ls, i as nat);
                }
                let _ = release(store, items, i);
                return Err(e);
            },
        }
        i += 1;
    }
    Ok(())
}

/// A copy of the items, line for line.
pub fn copy_items(items: &Vec<OrderItem>) -> (res: Vec<OrderItem>)
    ensures
        lines(res@) == lines(items@),
{
    let mut res: Vec<OrderItem> = Vec::new();
    let mut i: usize = 0;
    while i < items.len()
        invariant
            i <= items@.len(),
            res@.len() == i,
            forall|j: int| 0 <= j < i ==> (#[trigger] res@[j])@ == items@[j]@,
        decreases items@.len() - i,
    {
        res.push(items[i].clone());
        i += 1;
    }
    assert(lines(res@) =~= lines(items@));
    res
}

/// The announcement of a placed order: its identifier, its total, its lines.
pub fn outcome_event(order: &Order) -> (event: OrderOutcomeEvent)
    ensures
        event.order_id == order.order_id,
        event.total == order.total,
        lines(event.items@) == order.lines(),
{
    OrderOutcomeEvent {
        order_id: order.order_id,
        total: order.total,
        items: copy_items(&order.items),
    }
}

/// Places `request` under the identifier `order_id`, given whether storage
/// took the order (`persisted`) and whether the announcement went out
/// (`published`).
///
/// An inconsistent request is rejected before the ledger is touched. A line
/// that is refused, or storage that does not take the order, undoes every
/// reservation: on any failure the ledger is as it was. A placed order stays
/// placed when its announcement did not go out.
pub fn place_order(
    store: &mut InventoryStore,
    request: &Order,
    order_id: u128,
    persisted: bool,
    published: bool,
) -> (res: Result<Placement, OrderError>)
    requires
        old(store).wf(),
    ensures
        final(store).wf(),
        placement_holds(old(store)@, final(store)@, *request, order_id, persisted, published, res),
{
    if validate(request).is_err() {
        return Err(OrderError::Validation);
    }
    proof {
        store.view_in_range();
    }
    match reserve_all(store, &request.items) {
        Err(StockError::NotFound) => {
            return Err(OrderError::NotFound);
        },
        Err(StockError::InsufficientStock) => {
            return Err(OrderError::InsufficientStock);
        },
        Ok(()) => {},
    }
    if !persisted {
        proof {
            lemma_release_undoes_reserve(old(store)@, request.lines(), request.lines().len());
        }
        if release(store, &request.items, request.items.len()) {
            return Err(OrderError::Transient);
        } else {
            return Err(OrderError::Integrity);
        }
    }
    let order = Order { order_id, items: copy_items(&request.items), total: request.total };
    let event = outcome_event(&order);
    Ok(Placement { order, event, delivered: published })
}

} // verus!
