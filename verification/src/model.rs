//! The records that the services exchange, and their mathematical views.
//!
//! Prices and totals are whole numbers of the smallest currency unit.

use vstd::prelude::*;

verus! {

/// What one line of an order says: which article, how many, at what unit price.
pub struct Line {
    pub sku: Seq<char>,
    pub quantity: int,
    pub price: int,
}

/// One line of an order.
#[derive(Debug)]
pub struct OrderItem {
    pub sku: String,
    pub quantity: i32,
    pub price: u64,
}

impl View for OrderItem {
    type V = Line;

    open spec fn view(&self) -> Line {
        Line { sku: self.sku@, quantity: self.quantity as int, price: self.price as int }
    }
}

impl Clone for OrderItem {
    fn clone(&self) -> (res: Self)
        ensures
            res@ == self@,
    {
        OrderItem { sku: self.sku.clone(), quantity: self.quantity, price: self.price }
    }
}

/// An order: its identifier, its lines in the order they were declared, and
/// the sum the customer is charged.
#[derive(Debug, Clone)]
pub struct Order {
    pub order_id: u128,
    pub items: Vec<OrderItem>,
    pub total: u64,
}

/// The stock held of one article.
#[derive(Debug, Clone)]
pub struct Inventory {
    pub sku: String,
    pub quantity: i32,
}

/// A catalog entry.
#[derive(Debug, Clone)]
pub struct Product {
    pub product_id: u128,
    pub sku: String,
    pub name: String,
    pub price: u64,
}

/// The lines of a sequence of items, position by position.
pub open spec fn lines(items: Seq<OrderItem>) -> Seq<Line> {
    Seq::new(items.len(), |i: int| items[i]@)
}

/// The price of the first `k` lines together.
pub open spec fn total_upto(ls: Seq<Line>, k: nat) -> int
    decreases k,
{
    if k == 0 {
        0
    } else {
        total_upto(ls, (k - 1) as nat) + ls[k - 1].quantity * ls[k - 1].price
    }
}

/// The price of all lines together.
pub open spec fn lines_total(ls: Seq<Line>) -> int {
    total_upto(ls, ls.len())
}

/// Every one of the first `k` lines asks for at least one unit.
pub open spec fn quantities_positive_upto(ls: Seq<Line>, k: nat) -> bool {
    forall|i: int| 0 <= i < k ==> (#[trigger] ls[i]).quantity > 0
}

/// Every line asks for at least one unit.
pub open spec fn quantities_positive(ls: Seq<Line>) -> bool {
    quantities_positive_upto(ls, ls.len())
}

impl Order {
    /// The lines of this order.
    pub open spec fn lines(&self) -> Seq<Line> {
        lines(self.items@)
    }

    /// Whether the order may be placed at all: every line asks for at least
    /// one unit and the declared total is the sum of the lines.
    pub open spec fn is_consistent(&self) -> bool {
        quantities_positive(self.lines()) && lines_total(self.lines()) == self.total as int
    }
}

} // verus!
