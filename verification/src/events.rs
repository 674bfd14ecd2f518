//! What comes from outside the ledger: catalog events, which seed stock
//! records, and the identifiers that placed orders are given.

use vstd::prelude::*;
use crate::coordinator::{copy_items, place_order, placement_holds, OrderError, Placement};
use crate::inventory::{seeded, InventoryStore};
use crate::model::{Order, Product};

verus! {

/// The quantity that a newly announced article starts with.
pub const INITIAL_STOCK: i32 = 100;

/// What became of a catalog event.
#[derive(Debug, Clone, Copy, PartialEq, Eq, Structural)]
pub enum SeedOutcome {
    /// A stock record was created.
    Created,
    /// The article had a record already, which was left as it is.
    AlreadyPresent,
    /// The event names no article.
    Malformed,
}

/// The text under `key` in the JSON object that `payload` spells, if `payload`
/// is JSON, its top level is an object, and the member `key` is a string.
pub uninterp spec fn json_text_field(payload: Seq<u8>, key: Seq<char>) -> Option<Seq<char>>;

/// Whether `id` has the fixed bits of a random (version 4) UUID.
pub open spec fn is_random_uuid(id: u128) -> bool {
    id & 0xF000_C000_0000_0000_0000u128 == 0x4000_8000_0000_0000_0000u128
}

/// Calls `serde_json::from_slice` for a `serde_json::Value` and picks the
/// member `key` out of the document with `Value::get`. Trusted, not proved:
/// the result is `json_text_field` of the bytes and the key, that is the
/// string member `key` of the document, and nothing where the bytes are not
/// JSON, the document is no object, or the member is missing or no string.
/// Which text that is depends on the bytes and the key alone; the JSON
/// grammar is not spelled out here.
#[verifier::external_body]
fn text_field(payload: &[u8], key: &str) -> (res: Option<String>)
    ensures
        match res {
            Some(s) => json_text_field(payload@, key@) == Some(s@),
            None => json_text_field(payload@, key@).is_none(),
        },
{
    let doc: serde_json::Value = match serde_json::from_slice(payload) {
        Ok(doc) => doc,
        Err(_) => return None,
    };
    match doc.get(key) {
        Some(serde_json::Value::String(text)) => Some(text.clone()),
        _ => None,
    }
}

/// Calls `uuid::Uuid::new_v4` and reads the identifier as a number with
/// `Uuid::as_u128`. Trusted, not proved: the version and variant bits are
/// those of a random UUID. Nothing is said of the other bits, which are drawn
/// at random, so two calls may differ. The call ends the process where the
/// system has no random bytes to give.
#[verifier::external_body]
fn random_uuid() -> (id: u128)
    ensures
        is_random_uuid(id),
{
    uuid::Uuid::new_v4().as_u128()
}

/// Seeds the record of the article that a catalog event names, given what
/// decoding the event gave. A record that exists is left as it is, so an
/// event that is delivered again changes nothing.
pub fn seed_decoded(store: &mut InventoryStore, sku: Option<String>) -> (res: SeedOutcome)
    requires
        old(store).wf(),
    ensures
        final(store).wf(),
        match sku {
            Some(s) => final(store)@ == seeded(old(store)@, s@, INITIAL_STOCK as int) && res == (
            if old(store)@.dom().contains(s@) {
                SeedOutcome::AlreadyPresent
            } else {
                SeedOutcome::Created
            }),
            None => final(store)@ == old(store)@ && res == SeedOutcome::Malformed,
        },
{
    match sku {
        None => SeedOutcome::Malformed,
        Some(s) => {
            if store.initialize_if_absent(s, INITIAL_STOCK) {
                SeedOutcome::Created
            } else {
                SeedOutcome::AlreadyPresent
            }
        },
    }
}

/// Consumes one catalog event: the article that the text member `sku` of the
/// payload names gets a stock record unless it has one.
pub fn apply_catalog_event(store: &mut InventoryStore, payload: &[u8]) -> (res: SeedOutcome)
    requires
        old(store).wf(),
    ensures
        final(store).wf(),
        match json_text_field(payload@, "sku"@) {
            Some(s) => final(store)@ == seeded(old(store)@, s, INITIAL_STOCK as int) && res == (
            if old(store)@.dom().contains(s) {
                SeedOutcome::AlreadyPresent
            } else {
                SeedOutcome::Created
            }),
            None => final(store)@ == old(store)@ && res == SeedOutcome::Malformed,
        },
{
    let sku = text_field(payload, "sku");
    seed_decoded(store, sku)
}

/// The order that a request becomes: the same lines and total under a fresh
/// random identifier. The identifier that the request carries is ignored.
pub fn new_order(request: &Order) -> (order: Order)
    ensures
        is_random_uuid(order.order_id),
        order.total == request.total,
        order.lines() == request.lines(),
{
    Order { order_id: random_uuid(), items: copy_items(&request.items), total: request.total }
}

/// The catalog entry that a submission becomes: the same article under a
/// fresh random identifier.
pub fn new_product(submission: Product) -> (product: Product)
    ensures
        is_random_uuid(product.product_id),
        product.sku == submission.sku,
        product.name == submission.name,
        product.price == submission.price,
{
    Product {
        product_id: random_uuid(),
        sku: submission.sku,
        name: submission.name,
        price: submission.price,
    }
}

/// Places `request` under a fresh random identifier: whatever identifier the
/// request carries is ignored.
pub fn submit_order(
    store: &mut InventoryStore,
    request: &Order,
    persisted: bool,
    published: bool,
) -> (res: Result<Placement, OrderError>)
    requires
        old(store).wf(),
    ensures
        final(store).wf(),
        match res {
            Ok(p) => is_random_uuid(p.order.order_id) && placement_holds(
                old(store)@,
                final(store)@,
                *request,
                p.order.order_id,
                persisted,
                published,
                res,
            ),
            Err(_) => placement_holds(
                old(store)@,
                final(store)@,
                *request,
                request.order_id,
                persisted,
                published,
                res,
            ),
        },
{
    let order_id = random_uuid();
    place_order(store, request, order_id, persisted, published)
}

} // verus!
