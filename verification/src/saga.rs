//! The placement of one order as a state machine, for a coordinator whose
//! ledger, order storage and event log are remote: the machine says which
//! call comes next, the caller makes it and reports what came back.

use vstd::prelude::*;
use crate::coordinator::{
    lemma_refusal_stays, lemma_reserved_valid, refusal, refusal_error, reserved, validate,
    OrderError,
};
use crate::inventory::{
    after_decrement, after_restock, decrement_outcome, lemma_restock_undoes_decrement,
    restock_outcome, stock_valid, StockError,
};
use crate::model::{quantities_positive, quantities_positive_upto, Line, Order};

verus! {

/// Where a placement stands. Each phase but `Done` waits for one call.
#[derive(Debug, Clone, Copy, PartialEq, Eq, Structural)]
pub enum Phase {
    /// Line `line` is to be taken out of stock; the lines before it were.
    Reserving { line: usize },
    /// Line `line` is to be put back, then the lines before it; the
    /// placement has failed with `cause`.
    RollingBack { line: usize, cause: OrderError },
    /// Every line was taken out of stock; the order is to be stored.
    Persisting,
    /// The order is stored; its announcement is to go out.
    Publishing,
    /// The order is stored; `delivered` says whether its announcement went out.
    Placed { delivered: bool },
    /// No order was stored, and every line that was taken was asked back.
    Failed { cause: OrderError },
}

/// The call that a phase waits for.
#[derive(Debug, Clone, Copy, PartialEq, Eq, Structural)]
pub enum Action {
    /// Take the line at this position out of stock.
    Decrement { line: usize },
    /// Put the line at this position back into stock.
    Restock { line: usize },
    /// Store the order.
    Persist,
    /// Send the announcement.
    Publish,
    /// Nothing: answer the client.
    Finish,
}

/// What came back from a call.
#[derive(Debug, Clone, Copy, PartialEq, Eq, Structural)]
pub enum Reply {
    /// The call did what was asked.
    Done,
    /// The ledger refused a decrement.
    Refused(StockError),
    /// The call failed or timed out; what it did is unknown.
    Unavailable,
}

/// The phase from which lines `count - 1` down to `0` are put back after a
/// failure with `cause`.
pub open spec fn rollback_from(count: int, cause: OrderError) -> Phase {
    if count <= 0 {
        Phase::Failed { cause }
    } else {
        Phase::RollingBack { line: (count - 1) as usize, cause }
    }
}

/// The phase in which a placement of `lines` lines starts.
pub open spec fn first_phase(consistent: bool, lines: int) -> Phase {
    if !consistent {
        Phase::Failed { cause: OrderError::Validation }
    } else if lines == 0 {
        Phase::Persisting
    } else {
        Phase::Reserving { line: 0 }
    }
}

/// The phase that follows `phase` on `reply`, for an order of `lines` lines.
///
/// A decrement that is refused or fails sends the lines before it back; an
/// order that cannot be stored sends every line back; a restock that fails
/// turns the cause into `Integrity` and the remaining lines still go back; an
/// announcement that fails leaves the order placed.
pub open spec fn next_phase(phase: Phase, reply: Reply, lines: int) -> Phase {
    match phase {
        Phase::Reserving { line } => match reply {
            Reply::Done => if line + 1 < lines {
                Phase::Reserving { line: (line + 1) as usize }
            } else {
                Phase::Persisting
            },
            Reply::Refused(e) => rollback_from(line as int, refusal_error(e)),
            Reply::Unavailable => rollback_from(line as int, OrderError::Transient),
        },
        Phase::RollingBack { line, cause } => match reply {
            Reply::Done => rollback_from(line as int, cause),
            _ => rollback_from(line as int, OrderError::Integrity),
        },
        Phase::Persisting => match reply {
            Reply::Done => Phase::Publishing,
            _ => rollback_from(lines, OrderError::Transient),
        },
        Phase::Publishing => Phase::Placed { delivered: reply == Reply::Done },
        Phase::Placed { delivered } => phase,
        Phase::Failed { cause } => phase,
    }
}

/// The call that `phase` waits for.
pub open spec fn action_of(phase: Phase) -> Action {
    match phase {
        Phase::Reserving { line } => Action::Decrement { line },
        Phase::RollingBack { line, cause } => Action::Restock { line },
        Phase::Persisting => Action::Persist,
        Phase::Publishing => Action::Publish,
        Phase::Placed { delivered } => Action::Finish,
        Phase::Failed { cause } => Action::Finish,
    }
}

/// The phase names only lines that the order has.
pub open spec fn phase_valid(phase: Phase, lines: int) -> bool {
    match phase {
        Phase::Reserving { line } => line < lines,
        Phase::RollingBack { line, cause } => line < lines,
        _ => true,
    }
}

/// An upper bound on the calls that are still to come.
pub open spec fn calls_left(phase: Phase, lines: int) -> int {
    match phase {
        Phase::Reserving { line } => 2 * lines + 2 - line,
        Phase::Persisting => lines + 2,
        Phase::RollingBack { line, cause } => line + 1,
        Phase::Publishing => 1,
        Phase::Placed { delivered } => 0,
        Phase::Failed { cause } => 0,
    }
}

/// Every placement reaches an end: each reply, whatever it is, leaves
/// strictly fewer calls to come, and the machine never names a line that the
/// order does not have.
pub proof fn lemma_placement_terminates(phase: Phase, reply: Reply, lines: int)
    requires
        phase_valid(phase, lines),
        0 <= lines <= usize::MAX,
        action_of(phase) != Action::Finish,
    ensures
        phase_valid(next_phase(phase, reply, lines), lines),
        0 <= calls_left(next_phase(phase, reply, lines), lines) < calls_left(phase, lines),
{
}

/// The reply that a ledger in state `m` gives to the call of `phase`, with
/// the ledger after the call. Storage takes the order if `persisted`, and
/// the event log takes the announcement if `published`.
pub open spec fn ledger_reply(
    phase: Phase,
    m: Map<Seq<char>, int>,
    ls: Seq<Line>,
    persisted: bool,
    published: bool,
) -> (Reply, Map<Seq<char>, int>) {
    match phase {
        Phase::Reserving { line } => match decrement_outcome(
            m,
            ls[line as int].sku,
            ls[line as int].quantity,
        ) {
            Ok(_) => (Reply::Done, after_decrement(m, ls[line as int].sku, ls[line as int].quantity)),
            Err(e) => (Reply::Refused(e), m),
        },
        Phase::RollingBack { line, cause } => match restock_outcome(
            m,
            ls[line as int].sku,
            ls[line as int].quantity,
        ) {
            Some(_) => (Reply::Done, after_restock(m, ls[line as int].sku, ls[line as int].quantity)),
            None => (Reply::Unavailable, m),
        },
        Phase::Persisting => (
            if persisted {
                Reply::Done
            } else {
                Reply::Unavailable
            },
            m,
        ),
        Phase::Publishing => (
            if published {
                Reply::Done
            } else {
                Reply::Unavailable
            },
            m,
        ),
        _ => (Reply::Done, m),
    }
}

/// Where the machine ends, and the ledger it leaves, when every call it asks
/// for is made against the ledger `m`.
pub open spec fn run(
    phase: Phase,
    m: Map<Seq<char>, int>,
    ls: Seq<Line>,
    persisted: bool,
    published: bool,
) -> (Phase, Map<Seq<char>, int>)
    decreases calls_left(phase, ls.len() as int),
{
    if action_of(phase) == Action::Finish || !phase_valid(phase, ls.len() as int) || ls.len()
        > usize::MAX {
        (phase, m)
    } else {
        let (reply, after) = ledger_reply(phase, m, ls, persisted, published);
        run(next_phase(phase, reply, ls.len() as int), after, ls, persisted, published)
    }
}

/// Where a placement of the lines `ls` against the ledger `m` must end: the
/// first refusal fails it, then storage that does not take the order; a
/// failure leaves the ledger as it was, a success has taken every line.
pub open spec fn expected_end(
    m: Map<Seq<char>, int>,
    ls: Seq<Line>,
    persisted: bool,
    published: bool,
) -> (Phase, Map<Seq<char>, int>) {
    match refusal(m, ls, ls.len()) {
        Some(e) => (Phase::Failed { cause: refusal_error(e) }, m),
        None => if persisted {
            (Phase::Placed { delivered: published }, reserved(m, ls, ls.len()))
        } else {
            (Phase::Failed { cause: OrderError::Transient }, m)
        },
    }
}

proof fn lemma_run_rollback(
    m: Map<Seq<char>, int>,
    ls: Seq<Line>,
    k: nat,
    cause: OrderError,
    persisted: bool,
    published: bool,
)
    requires
        stock_valid(m),
        k <= ls.len() <= usize::MAX,
        quantities_positive_upto(ls, k),
        refusal(m, ls, k).is_none(),
    ensures
        run(rollback_from(k as int, cause), reserved(m, ls, k), ls, persisted, published) == (
            Phase::Failed { cause },
            m,
        ),
    decreases k,
{
    if k > 0 {
        let before = reserved(m, ls, (k - 1) as nat);
        lemma_reserved_valid(m, ls, (k - 1) as nat);
        assert(ls[k - 1].quantity > 0);
        lemma_restock_undoes_decrement(before, ls[k - 1].sku, ls[k - 1].quantity);
        lemma_run_rollback(m, ls, (k - 1) as nat, cause, persisted, published);
        let phase = Phase::RollingBack { line: (k - 1) as usize, cause };
        assert(ledger_reply(phase, reserved(m, ls, k), ls, persisted, published) == (
            Reply::Done,
            before,
        ));
        assert(next_phase(phase, Reply::Done, ls.len() as int) == rollback_from(k - 1, cause));
    }
}

proof fn lemma_run_persisting(
    m: Map<Seq<char>, int>,
    ls: Seq<Line>,
    persisted: bool,
    published: bool,
)
    requires
        stock_valid(m),
        ls.len() <= usize::MAX,
        quantities_positive(ls),
        refusal(m, ls, ls.len()).is_none(),
    ensures
        run(Phase::Persisting, reserved(m, ls, ls.len()), ls, persisted, published)
            == expected_end(m, ls, persisted, published),
{
    let taken = reserved(m, ls, ls.len());
    if persisted {
        let end = Phase::Placed { delivered: published };
        assert(run(end, taken, ls, persisted, published) == (end, taken));
        assert(run(Phase::Publishing, taken, ls, persisted, published) == (end, taken));
    } else {
        lemma_run_rollback(m, ls, ls.len(), OrderError::Transient, persisted, published);
    }
}

proof fn lemma_run_reserving(
    m: Map<Seq<char>, int>,
    ls: Seq<Line>,
    i: nat,
    persisted: bool,
    published: bool,
)
    requires
        stock_valid(m),
        i < ls.len() <= usize::MAX,
        quantities_positive(ls),
        refusal(m, ls, i).is_none(),
    ensures
        run(Phase::Reserving { line: i as usize }, reserved(m, ls, i), ls, persisted, published)
            == expected_end(m, ls, persisted, published),
    decreases ls.len() - i,
{
    let phase = Phase::Reserving { line: i as usize };
    let cur = reserved(m, ls, i);
    match decrement_outcome(cur, ls[i as int].sku, ls[i as int].quantity) {
        Ok(_) => {
            assert(refusal(m, ls, i + 1).is_none());
            assert(ledger_reply(phase, cur, ls, persisted, published) == (
                Reply::Done,
                reserved(m, ls, i + 1),
            ));
            if i + 1 < ls.len() {
                lemma_run_reserving(m, ls, i + 1, persisted, published);
            } else {
                lemma_run_persisting(m, ls, persisted, published);
            }
        },
        Err(e) => {
            assert(refusal(m, ls, i + 1) == Some(e));
            lemma_refusal_stays(m, ls, i + 1, ls.len());
            assert(ledger_reply(phase, cur, ls, persisted, published) == (Reply::Refused(e), cur));
            lemma_run_rollback(m, ls, i, refusal_error(e), persisted, published);
        },
    }
}

/// The machine places all or nothing: run against a ledger, it ends where
/// the placement must end. It fails with the first refusal, or because
/// storage did not take the order, and the ledger is then as it was before;
/// or it has taken every line, the order is placed, and only the delivery
/// of the announcement depends on the event log.
pub proof fn lemma_machine_places_all_or_nothing(
    m: Map<Seq<char>, int>,
    ls: Seq<Line>,
    persisted: bool,
    published: bool,
)
    requires
        stock_valid(m),
        ls.len() <= usize::MAX,
        quantities_positive(ls),
    ensures
        run(first_phase(true, ls.len() as int), m, ls, persisted, published) == expected_end(
            m,
            ls,
            persisted,
            published,
        ),
{
    if ls.len() == 0 {
        lemma_run_persisting(m, ls, persisted, published);
    } else {
        lemma_run_reserving(m, ls, 0, persisted, published);
    }
}

fn rollback(count: usize, cause: OrderError) -> (phase: Phase)
    ensures
        phase == rollback_from(count as int, cause),
{
    if count == 0 {
        Phase::Failed { cause }
    } else {
        Phase::RollingBack { line: count - 1, cause }
    }
}

/// Starts the placement of `request`: an inconsistent request fails at once,
/// before any call is made.
pub fn start(request: &Order) -> (phase: Phase)
    ensures
        phase == first_phase(request.is_consistent(), request.items@.len() as int),
        phase_valid(phase, request.items@.len() as int),
{
    if validate(request).is_err() {
        Phase::Failed { cause: OrderError::Validation }
    } else if request.items.len() == 0 {
        Phase::Persisting
    } else {
        Phase::Reserving { line: 0 }
    }
}

/// The call to make in `phase`.
pub fn action(phase: Phase) -> (act: Action)
    ensures
        act == action_of(phase),
{
    match phase {
        Phase::Reserving { line } => Action::Decrement { line },
        Phase::RollingBack { line, cause: _ } => Action::Restock { line },
        Phase::Persisting => Action::Persist,
        Phase::Publishing => Action::Publish,
        Phase::Placed { delivered: _ } => Action::Finish,
        Phase::Failed { cause: _ } => Action::Finish,
    }
}

/// Moves a placement of an order of `lines` lines on by one reply.
pub fn advance(phase: Phase, reply: Reply, lines: usize) -> (next: Phase)
    ensures
        next == next_phase(phase, reply, lines as int),
{
    match phase {
        Phase::Reserving { line } => match reply {
            Reply::Done => {
                if lines > 0 && line < lines - 1 {
                    Phase::Reserving { line: line + 1 }
                } else {
                    Phase::Persisting
                }
            },
            Reply::Refused(StockError::NotFound) => rollback(line, OrderError::NotFound),
            Reply::Refused(StockError::InsufficientStock) => rollback(
                line,
                OrderError::InsufficientStock,
            ),
            Reply::Unavailable => rollback(line, OrderError::Transient),
        },
        Phase::RollingBack { line, cause } => match reply {
            Reply::Done => rollback(line, cause),
            _ => rollback(line, OrderError::Integrity),
        },
        Phase::Persisting => match reply {
            Reply::Done => Phase::Publishing,
            _ => rollback(lines, OrderError::Transient),
        },
        Phase::Publishing => match reply {
            Reply::Done => Phase::Placed { delivered: true },
            _ => Phase::Placed { delivered: false },
        },
        Phase::Placed { delivered } => Phase::Placed { delivered },
        Phase::Failed { cause } => Phase::Failed { cause },
    }
}

} // verus!
