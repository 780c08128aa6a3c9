//! The broadcaster's part that computes: which quotes go to whom.
//!
//! Sending is the caller's. A send that fails concerns neither the other
//! deliveries of the plan nor the registry.

use vstd::prelude::*;
use crate::quote::{quotes_of, StockQuote, StockQuoteView};
use crate::registry::{lists, listing_view, SubscriptionRegistry};
use crate::symbols::symbols_of;

verus! {

/// The records of `snapshot` whose ticker is in `watch_list`, in the
/// snapshot's order.
pub open spec fn selected(snapshot: Seq<StockQuoteView>, watch_list: Seq<Seq<char>>) -> Seq<
    StockQuoteView,
> {
    snapshot.filter(|quote: StockQuoteView| watch_list.contains(quote.ticker))
}

/// One datagram to send: the quotes for the subscriber at `port`.
#[derive(Debug)]
pub struct Delivery {
    pub port: u16,
    pub quotes: Vec<StockQuote>,
}

/// Whether `plan` holds one delivery for each subscriber of `listing`, in
/// the listing's order, with the subscriber's part of `snapshot`.
pub open spec fn serves(
    plan: Seq<Delivery>,
    listing: Seq<(u16, Seq<Seq<char>>)>,
    snapshot: Seq<StockQuoteView>,
) -> bool {
    &&& plan.len() == listing.len()
    &&& forall|i: int|
        0 <= i < plan.len() ==> (#[trigger] plan[i]).port == listing[i].0 && quotes_of(
            plan[i].quotes@,
        ) == selected(snapshot, listing[i].1)
}

/// Whether `symbol` is in `watch_list`.
pub fn is_watched(watch_list: &Vec<String>, symbol: &String) -> (watched: bool)
    ensures
        watched == symbols_of(watch_list@).contains(symbol@),
{
    let mut i: usize = 0;
    while i < watch_list.len()
        invariant
            i <= watch_list.len(),
            forall|j: int| 0 <= j < i ==> symbols_of(watch_list@)[j] != symbol@,
        decreases watch_list.len() - i,
    {
        if watch_list[i] == *symbol {
            assert(symbols_of(watch_list@)[i as int] == symbol@);
            return true;
        }
        i += 1;
    }
    false
}

/// The part of `snapshot` that a subscriber with `watch_list` gets: see
/// [`selected`]. Where no ticker matches, that is an empty list.
pub fn filter_quotes(snapshot: &Vec<StockQuote>, watch_list: &Vec<String>) -> (chosen: Vec<
    StockQuote,
>)
    ensures
        quotes_of(chosen@) == selected(quotes_of(snapshot@), symbols_of(watch_list@)),
{
    let mut chosen: Vec<StockQuote> = Vec::new();
    let mut i: usize = 0;
    let ghost all = quotes_of(snapshot@);
    let ghost wanted = symbols_of(watch_list@);
    assert(all.take(0) =~= Seq::<StockQuoteView>::empty());
    assert(quotes_of(chosen@) =~= selected(all.take(0), wanted));
    while i < snapshot.len()
        invariant
            i <= snapshot.len(),
            all == quotes_of(snapshot@),
            wanted == symbols_of(watch_list@),
            quotes_of(chosen@) == selected(all.take(i as int), wanted),
        decreases snapshot.len() - i,
    {
        let ghost before = quotes_of(chosen@);
        proof {
            reveal(Seq::filter);
            assert(all.take(i + 1).drop_last() =~= all.take(i as int));
            assert(all.take(i + 1).last() == snapshot@[i as int]@);
        }
        if is_watched(watch_list, &snapshot[i].ticker) {
            chosen.push(snapshot[i].duplicate());
            assert(quotes_of(chosen@) =~= before.push(snapshot@[i as int]@));
        }
        i += 1;
    }
    assert(all.take(snapshot.len() as int) =~= all);
    chosen
}

/// The datagrams that `snapshot` gives rise to: one for each subscriber of
/// `listing`, also where its list of quotes is empty.
pub fn plan_deliveries(listing: &Vec<(u16, Vec<String>)>, snapshot: &Vec<StockQuote>) -> (plan:
    Vec<Delivery>)
    ensures
        serves(plan@, listing_view(listing@), quotes_of(snapshot@)),
{
    let mut plan: Vec<Delivery> = Vec::new();
    let mut i: usize = 0;
    while i < listing.len()
        invariant
            i <= listing.len(),
            plan.len() == i,
            forall|j: int|
                0 <= j < i ==> (#[trigger] plan[j]).port == listing[j].0 && quotes_of(
                    plan[j].quotes@,
                ) == selected(quotes_of(snapshot@), symbols_of(listing[j].1@)),
        decreases listing.len() - i,
    {
        let quotes = filter_quotes(snapshot, &listing[i].1);
        plan.push(Delivery { port: listing[i].0, quotes });
        i += 1;
    }
    plan
}

/// The datagrams that `snapshot` gives rise to for the subscribers of
/// `registry`, as they are registered at the moment of the call.
pub fn broadcast(registry: &SubscriptionRegistry, snapshot: &Vec<StockQuote>) -> (plan: Vec<
    Delivery,
>)
    ensures
        plan.len() == registry@.dom().len(),
        forall|i: int|
            0 <= i < plan.len() ==> registry@.contains_key((#[trigger] plan[i]).port)
                && quotes_of(plan[i].quotes@) == selected(
                quotes_of(snapshot@),
                registry@[plan[i].port].watch_list,
            ),
        forall|i: int, j: int|
            0 <= i < j < plan.len() ==> (#[trigger] plan[i]).port != (#[trigger] plan[j]).port,
        forall|id: u16| #[trigger]
            registry@.contains_key(id) ==> exists|i: int|
                0 <= i < plan.len() && (#[trigger] plan[i]).port == id,
{
    let listing = registry.snapshot_iterate();
    let plan = plan_deliveries(&listing, snapshot);
    proof {
        let view = listing_view(listing@);
        assert forall|i: int| 0 <= i < plan.len() implies registry@.contains_key(
            (#[trigger] plan[i]).port,
        ) && quotes_of(plan[i].quotes@) == selected(
            quotes_of(snapshot@),
            registry@[plan[i].port].watch_list,
        ) by {
            assert(plan[i].port == view[i].0);
        }
        assert forall|i: int, j: int| 0 <= i < j < plan.len() implies (#[trigger] plan[i]).port != (
        #[trigger] plan[j]).port by {
            assert(plan[i].port == view[i].0);
            assert(plan[j].port == view[j].0);
        }
        assert forall|id: u16| #[trigger] registry@.contains_key(id) implies exists|i: int|
            0 <= i < plan.len() && (#[trigger] plan[i]).port == id by {
            let at = choose|i: int| 0 <= i < view.len() && #[trigger] view[i].0 == id;
            assert(plan[at].port == id);
        }
    }
    plan
}

/// Selection takes the records one by one: of no record it takes nothing,
/// and of a single record it takes that record exactly when its ticker is
/// watched.
pub proof fn law_selection_of_one(quote: StockQuoteView, watch_list: Seq<Seq<char>>)
    ensures
        selected(Seq::empty(), watch_list) == Seq::<StockQuoteView>::empty(),
        watch_list.contains(quote.ticker) ==> selected(seq![quote], watch_list) == seq![quote],
        !watch_list.contains(quote.ticker) ==> selected(seq![quote], watch_list)
            == Seq::<StockQuoteView>::empty(),
{
    reveal_with_fuel(Seq::filter, 2);
    assert(seq![quote].drop_last() =~= Seq::<StockQuoteView>::empty());
    assert(Seq::<StockQuoteView>::empty().push(quote) =~= seq![quote]);
}

/// Selection keeps the snapshot's order: what is selected of two snapshots
/// put end to end is what is selected of the first, then what is selected
/// of the second.
pub proof fn law_selection_keeps_order(
    first: Seq<StockQuoteView>,
    second: Seq<StockQuoteView>,
    watch_list: Seq<Seq<char>>,
)
    ensures
        selected(first + second, watch_list) == selected(first, watch_list) + selected(
            second,
            watch_list,
        ),
    decreases second.len(),
{
    reveal(Seq::filter);
    if second.len() == 0 {
        assert(first + second =~= first);
        assert(selected(first, watch_list) + selected(second, watch_list) =~= selected(
            first,
            watch_list,
        ));
    } else {
        law_selection_keeps_order(first, second.drop_last(), watch_list);
        assert((first + second).drop_last() =~= first + second.drop_last());
        assert((first + second).last() == second.last());
        assert(selected(first + second, watch_list) =~= selected(first, watch_list) + selected(
            second,
            watch_list,
        ));
    }
}

/// What is selected is exactly what is watched: every selected record is
/// a record of the snapshot with a watched ticker, and every record of the
/// snapshot with a watched ticker is selected.
pub proof fn law_selection_is_exact(
    snapshot: Seq<StockQuoteView>,
    watch_list: Seq<Seq<char>>,
    quote: StockQuoteView,
)
    ensures
        selected(snapshot, watch_list).contains(quote) <==> snapshot.contains(quote)
            && watch_list.contains(quote.ticker),
    decreases snapshot.len(),
{
    reveal(Seq::filter);
    let chosen = selected(snapshot, watch_list);
    if snapshot.len() == 0 {
        assert(!chosen.contains(quote)) by {
            if chosen.contains(quote) {
                let at = choose|i: int| 0 <= i < chosen.len() && chosen[i] == quote;
            }
        }
        assert(!snapshot.contains(quote)) by {
            if snapshot.contains(quote) {
                let at = choose|i: int| 0 <= i < snapshot.len() && snapshot[i] == quote;
            }
        }
    } else {
        let front = snapshot.drop_last();
        let last = snapshot.last();
        let before = selected(front, watch_list);
        law_selection_is_exact(front, watch_list, quote);
        assert(snapshot =~= front.push(last));
        if snapshot.contains(quote) {
            let at = choose|i: int| 0 <= i < snapshot.len() && snapshot[i] == quote;
            if at < front.len() {
                assert(front[at] == quote);
            }
        }
        if front.contains(quote) {
            let at = choose|i: int| 0 <= i < front.len() && front[i] == quote;
            assert(snapshot[at] == quote);
        }
        assert(snapshot[snapshot.len() - 1] == last);
        if watch_list.contains(last.ticker) {
            assert(chosen == before.push(last));
            if chosen.contains(quote) {
                let at = choose|i: int| 0 <= i < chosen.len() && chosen[i] == quote;
                if at < before.len() {
                    assert(before[at] == quote);
                }
            }
            if before.contains(quote) {
                let at = choose|i: int| 0 <= i < before.len() && before[i] == quote;
                assert(chosen[at] == quote);
            }
            assert(chosen[chosen.len() - 1] == last);
        } else {
            assert(chosen == before);
        }
    }
}

/// Where no ticker of the snapshot is watched, the selection is the empty
/// list.
pub proof fn law_no_match_selects_nothing(
    snapshot: Seq<StockQuoteView>,
    watch_list: Seq<Seq<char>>,
)
    requires
        forall|i: int| 0 <= i < snapshot.len() ==> !watch_list.contains(#[trigger] snapshot[i].ticker),
    ensures
        selected(snapshot, watch_list) == Seq::<StockQuoteView>::empty(),
    decreases snapshot.len(),
{
    reveal(Seq::filter);
    if snapshot.len() > 0 {
        assert forall|i: int| 0 <= i < snapshot.drop_last().len() implies !watch_list.contains(
            #[trigger] snapshot.drop_last()[i].ticker,
        ) by {
            assert(snapshot.drop_last()[i] == snapshot[i]);
        }
        law_no_match_selects_nothing(snapshot.drop_last(), watch_list);
        assert(!watch_list.contains(snapshot[snapshot.len() - 1].ticker));
    }
}

/// Only which symbols a watch-list names matters: two lists that name the
/// same symbols, in whatever order and however often, select the same.
pub proof fn law_watch_list_order_is_insignificant(
    snapshot: Seq<StockQuoteView>,
    watch_list: Seq<Seq<char>>,
    other: Seq<Seq<char>>,
)
    requires
        forall|symbol: Seq<char>| watch_list.contains(symbol) <==> other.contains(symbol),
    ensures
        selected(snapshot, watch_list) == selected(snapshot, other),
    decreases snapshot.len(),
{
    reveal(Seq::filter);
    if snapshot.len() > 0 {
        law_watch_list_order_is_insignificant(snapshot.drop_last(), watch_list, other);
    }
}

} // verus!
