//! A set of order books, one per registered instrument, driven by commands.

use crate::commands::{
    Command, CommandOutput, EngineError, ExecuteResult, InstrumentId, OutcomeView,
};
use crate::orderbook::book_model::{levels_of, BookState};
use crate::orderbook::level_info::OrderbookLevelInfo;
use crate::orderbook::orderbook::{lists_levels, Orderbook};
use crate::orderbook::types::Price;
use std::collections::HashMap;
use vstd::prelude::*;
use vstd::std_specs::iter::IteratorSpec;

verus! {

broadcast use vstd::std_specs::hash::group_hash_axioms;

/// What running `cmd` on book `b` does: the book after it, and the outcome.
pub open spec fn run_command(b: BookState, cmd: Command) -> (BookState, OutcomeView) {
    match cmd {
        Command::PlaceOrder { order, .. } => {
            let (b2, r) = b.place(order);
            (b2, OutcomeView::PlaceOrder(r))
        },
        Command::CancelOrder { order_id, .. } => {
            let (b2, r) = b.cancel(order_id);
            (b2, OutcomeView::CancelOrder(r))
        },
        Command::CancelOrders { order_ids, .. } => {
            let (b2, r) = b.cancel_many(order_ids@);
            (b2, OutcomeView::CancelOrders(r))
        },
        Command::ModifyOrder { modify, .. } => {
            let (b2, r) = b.modify(modify);
            (b2, OutcomeView::ModifyOrder(r))
        },
    }
}

/// Book `b` has sequence numbers left for every event `cmd` can emit.
pub open spec fn command_room(b: BookState, cmd: Command) -> bool {
    match cmd {
        Command::CancelOrders { order_ids, .. } => b.room((order_ids.len() + 8) as nat),
        _ => b.room(8),
    }
}

/// The instruments' books with no events waiting.
pub open spec fn engine_valid(books: Map<InstrumentId, BookState>) -> bool {
    forall|id: InstrumentId| #[trigger]
        books.contains_key(id) ==> books[id].valid() && books[id].instrument_id == id
            && books[id].pending.len() == 0
}

/// Run `cmd` on `book`.
fn run_on_book(book: &mut Orderbook, cmd: Command) -> (out: CommandOutput)
    requires
        command_room(old(book)@, cmd),
    ensures
        (final(book)@, out@) == run_command(old(book)@, cmd),
        final(book)@.instrument_id == old(book)@.instrument_id,
        final(book)@.valid(),
{
    match cmd {
        Command::PlaceOrder { order, .. } => CommandOutput::PlaceOrder(book.add_order(order)),
        Command::CancelOrder { order_id, .. } => CommandOutput::CancelOrder(
            book.cancel_order(order_id),
        ),
        Command::CancelOrders { order_ids, .. } => CommandOutput::CancelOrders(
            book.cancel_orders(order_ids),
        ),
        Command::ModifyOrder { modify, .. } => CommandOutput::ModifyOrder(
            book.modify_order(modify),
        ),
    }
}

pub struct Engine {
    books: HashMap<InstrumentId, Orderbook>,
}

impl View for Engine {
    type V = Map<InstrumentId, BookState>;

    closed spec fn view(&self) -> Map<InstrumentId, BookState> {
        self.books@.map_values(|b: Orderbook| b@)
    }
}

impl Engine {
    /// Every book is valid, filed under its own instrument, and has no
    /// events waiting.
    #[verifier::type_invariant]
    pub closed spec fn wf(&self) -> bool {
        engine_valid(self@)
    }

    /// An engine holds valid books, each under its own instrument, with no
    /// events waiting; `use_type_invariant` gives the premise.
    pub proof fn lemma_valid(&self)
        requires
            self.wf(),
        ensures
            engine_valid(self@),
    {
    }

    pub fn new() -> (e: Self)
        ensures
            e@ == Map::<InstrumentId, BookState>::empty(),
    {
        let e = Self { books: HashMap::new() };
        assert(e@ =~= Map::<InstrumentId, BookState>::empty());
        e
    }

    /// Register an instrument; `true` if a new book was created, `false`
    /// if it was already registered.
    pub fn register_instrument(&mut self, instrument_id: InstrumentId) -> (created: bool)
        ensures
            created == !old(self)@.contains_key(instrument_id),
            final(self)@ == (if created {
                old(self)@.insert(instrument_id, BookState::empty(instrument_id))
            } else {
                old(self)@
            }),
    {
        proof {
            use_type_invariant(&*self);
        }
        if self.books.contains_key(&instrument_id) {
            return false;
        }
        let mut books: HashMap<InstrumentId, Orderbook> = HashMap::new();
        std::mem::swap(&mut books, &mut self.books);
        let book = Orderbook::new(instrument_id);
        books.insert(instrument_id, book);
        proof {
            assert(books@.map_values(|b: Orderbook| b@) =~= old(self)@.insert(
                instrument_id,
                BookState::empty(instrument_id),
            ));
        }
        self.books = books;
        true
    }

    pub fn is_registered(&self, instrument_id: InstrumentId) -> (r: bool)
        ensures
            r == self@.contains_key(instrument_id),
    {
        self.books.contains_key(&instrument_id)
    }

    /// The registered instruments, each once, in no particular order.
    pub fn registered_instruments(&self) -> (r: Vec<InstrumentId>)
        ensures
            r@.to_set() == self@.dom(),
            r@.no_duplicates(),
    {
        let ghost ks = self.books.keys().remaining();
        let mut out: Vec<InstrumentId> = Vec::new();
        for id in it: self.books.keys()
            invariant
                it.seq() == ks,
                out@.len() == it.index(),
                forall|i: int| 0 <= i < out@.len() ==> out@[i] == *ks[i],
            ensures
                out@.len() == ks.len(),
                forall|i: int| 0 <= i < out@.len() ==> out@[i] == *ks[i],
        {
            out.push(*id);
        }
        proof {
            assert(out@ =~= ks.unref());
            assert(self@.dom() =~= self.books@.dom());
        }
        out
    }

    /// Number of registered instruments.
    pub fn instrument_count(&self) -> (r: usize)
        ensures
            r == self@.dom().len(),
    {
        proof {
            assert(self@.dom() =~= self.books@.dom());
        }
        self.books.len()
    }

    /// Whether the book of `cmd`'s instrument, if registered, has sequence
    /// numbers left for every event the command can emit.
    pub fn has_room(&self, cmd: &Command) -> (r: bool)
        ensures
            r == (self@.contains_key(cmd.instrument_spec()) ==> command_room(
                self@[cmd.instrument_spec()],
                *cmd,
            )),
    {
        proof {
            use_type_invariant(self);
        }
        let id = cmd.instrument_id();
        match self.books.get(&id) {
            None => true,
            Some(book) => {
                let extra: u128 = match cmd {
                    Command::CancelOrders { order_ids, .. } => order_ids.len() as u128 + 8,
                    _ => 8,
                };
                if extra > u64::MAX as u128 {
                    return false;
                }
                book.has_room(extra)
            },
        }
    }

    /// Route `cmd` to its instrument's book and run it there.
    pub fn execute(&mut self, cmd: Command) -> (r: Result<ExecuteResult, EngineError>)
        requires
            old(self)@.contains_key(cmd.instrument_spec()) ==> command_room(
                old(self)@[cmd.instrument_spec()],
                cmd,
            ),
        ensures
            ({
                let id = cmd.instrument_spec();
                if old(self)@.contains_key(id) {
                    let (b2, out) = run_command(old(self)@[id], cmd);
                    &&& r is Ok
                    &&& r->Ok_0.output@ == out
                    &&& r->Ok_0.events@ == b2.pending
                    &&& final(self)@ == old(self)@.insert(id, b2.drained())
                } else {
                    &&& r == Err::<ExecuteResult, EngineError>(EngineError::UnknownInstrument(id))
                    &&& final(self)@ == old(self)@
                }
            }),
    {
        proof {
            use_type_invariant(&*self);
        }
        let instrument_id = cmd.instrument_id();
        if !self.books.contains_key(&instrument_id) {
            return Err(EngineError::UnknownInstrument(instrument_id));
        }
        let mut books: HashMap<InstrumentId, Orderbook> = HashMap::new();
        std::mem::swap(&mut books, &mut self.books);
        let mut book = match books.remove(&instrument_id) {
            Some(book) => book,
            None => {
                self.books = books;
                return Err(EngineError::UnknownInstrument(instrument_id));
            },
        };
        let ghost b = book@;
        assert(b == old(self)@[instrument_id]);
        let output = run_on_book(&mut book, cmd);
        let ghost b2 = book@;
        let events = book.take_events();
        proof {
            assert(b2.instrument_id == b.instrument_id);
        }
        books.insert(instrument_id, book);
        proof {
            assert(books@ == old(self).books@.insert(instrument_id, book));
            assert(books@.map_values(|o: Orderbook| o@) =~= old(self)@.insert(
                instrument_id,
                b2.drained(),
            ));
            let m = books@.map_values(|o: Orderbook| o@);
            assert forall|id: InstrumentId| #[trigger] m.contains_key(id) implies m[id].valid()
                && m[id].instrument_id == id && m[id].pending.len() == 0 by {
                if id != instrument_id {
                    assert(old(self)@.contains_key(id));
                } else {
                    assert(m[id] == b2.drained());
                    assert(b.instrument_id == id);
                }
            }
        }
        self.books = books;
        Ok(ExecuteResult { output, events })
    }

    /// Whether every depth level of `instrument_id`'s book, if registered,
    /// fits a `Quantity`, which `get_orderbook_state` needs.
    pub fn depth_fits(&self, instrument_id: InstrumentId) -> (r: bool)
        ensures
            r == (self@.contains_key(instrument_id) ==> self@[instrument_id].depth_fits()),
    {
        match self.books.get(&instrument_id) {
            None => true,
            Some(book) => book.depth_fits(),
        }
    }

    /// Depth snapshot of `instrument_id`'s book; `None` when not registered.
    pub fn get_orderbook_state(&self, instrument_id: InstrumentId) -> (r: Option<
        OrderbookLevelInfo,
    >)
        requires
            self@.contains_key(instrument_id) ==> self@[instrument_id].depth_fits(),
        ensures
            r is None <==> !self@.contains_key(instrument_id),
            r is Some ==> lists_levels(r->0@.0, levels_of(self@[instrument_id].bids))
                && lists_levels(r->0@.1, levels_of(self@[instrument_id].asks)),
    {
        match self.books.get(&instrument_id) {
            None => None,
            Some(book) => Some(book.get_order_infos()),
        }
    }

    /// Best bid of `instrument_id`'s book; `None` when not registered or empty.
    pub fn best_bid(&self, instrument_id: InstrumentId) -> (r: Option<Price>)
        ensures
            r == (if self@.contains_key(instrument_id) {
                self@[instrument_id].best_bid()
            } else {
                None
            }),
    {
        match self.books.get(&instrument_id) {
            None => None,
            Some(book) => book.best_bid(),
        }
    }

    /// Best ask of `instrument_id`'s book; `None` when not registered or empty.
    pub fn best_ask(&self, instrument_id: InstrumentId) -> (r: Option<Price>)
        ensures
            r == (if self@.contains_key(instrument_id) {
                self@[instrument_id].best_ask()
            } else {
                None
            }),
    {
        match self.books.get(&instrument_id) {
            None => None,
            Some(book) => book.best_ask(),
        }
    }

    /// Number of resting orders of `instrument_id`'s book; `None` when not registered.
    pub fn order_count(&self, instrument_id: InstrumentId) -> (r: Option<usize>)
        ensures
            r is None <==> !self@.contains_key(instrument_id),
            r matches Some(n) ==> n == self@[instrument_id].bids.len()
                + self@[instrument_id].asks.len(),
    {
        proof {
            use_type_invariant(self);
        }
        match self.books.get(&instrument_id) {
            None => None,
            Some(book) => Some(book.size()),
        }
    }
}

impl Default for Engine {
    fn default() -> (e: Self)
        ensures
            e@ == Map::<InstrumentId, BookState>::empty(),
    {
        Self::new()
    }
}

} // verus!
