//! The registry of subscribers: who listens to what, and when each was last
//! heard from.
//!
//! The registry is plain data. Callers that share one between threads keep
//! it behind a lock and hold the lock for exactly one operation at a time;
//! every operation here is short and does no I/O.

use std::collections::HashMap;
use vstd::prelude::*;
use vstd::std_specs::hash::spec_keys_iter;
use vstd::std_specs::iter::IteratorSpec;
use crate::error::SessionError;
use crate::symbols::{clone_symbols, symbols_of};

verus! {

/// Time that has passed between `last_seen` and `now`, zero when the clock
/// reading `now` lies before `last_seen`.
pub open spec fn elapsed(last_seen: u64, now: u64) -> nat {
    if now >= last_seen {
        (now - last_seen) as nat
    } else {
        0
    }
}

/// One subscriber's entry.
pub struct Subscription {
    /// Clock reading of the registration or of the latest keep-alive.
    pub last_seen: u64,
    /// The symbols the subscriber asked for, as announced.
    pub watch_list: Vec<String>,
}

/// What an entry means: a timestamp and a list of symbols.
pub struct SubscriptionView {
    pub last_seen: u64,
    pub watch_list: Seq<Seq<char>>,
}

impl View for Subscription {
    type V = SubscriptionView;

    open spec fn view(&self) -> SubscriptionView {
        SubscriptionView { last_seen: self.last_seen, watch_list: symbols_of(self.watch_list@) }
    }
}

/// Whether the entry of `id` in `entries` has gone without a keep-alive for
/// `timeout` or longer at clock reading `now`. An absent identity is never
/// stale.
pub open spec fn stale_in(
    entries: Map<u16, SubscriptionView>,
    id: u16,
    timeout: u64,
    now: u64,
) -> bool {
    entries.contains_key(id) && elapsed(entries[id].last_seen, now) >= timeout
}

/// `entries` after an attempt to register `id` with `watch_list` at `now`:
/// unchanged where `id` is taken, else with the new entry.
pub open spec fn registered(
    entries: Map<u16, SubscriptionView>,
    id: u16,
    watch_list: Seq<Seq<char>>,
    now: u64,
) -> Map<u16, SubscriptionView> {
    if entries.contains_key(id) {
        entries
    } else {
        entries.insert(id, SubscriptionView { last_seen: now, watch_list })
    }
}

/// `entries` after a keep-alive of `id` at `now`: the entry of `id`, if
/// there is one, is last seen at `now`; nothing else changes.
pub open spec fn touched(entries: Map<u16, SubscriptionView>, id: u16, now: u64) -> Map<
    u16,
    SubscriptionView,
> {
    if entries.contains_key(id) {
        entries.insert(
            id,
            SubscriptionView { last_seen: now, watch_list: entries[id].watch_list },
        )
    } else {
        entries
    }
}

/// What a listing means: identities with the symbols each one watches.
pub open spec fn listing_view(listing: Seq<(u16, Vec<String>)>) -> Seq<(u16, Seq<Seq<char>>)> {
    Seq::new(listing.len(), |i: int| (listing[i].0, symbols_of(listing[i].1@)))
}

/// Whether `listing` names every entry of `entries` exactly once, each
/// with its watch-list, and nothing else.
pub open spec fn lists(
    listing: Seq<(u16, Seq<Seq<char>>)>,
    entries: Map<u16, SubscriptionView>,
) -> bool {
    &&& listing.len() == entries.dom().len()
    &&& forall|i: int|
        0 <= i < listing.len() ==> entries.contains_key(#[trigger] listing[i].0)
            && entries[listing[i].0].watch_list == listing[i].1
    &&& forall|i: int, j: int|
        0 <= i < j < listing.len() ==> #[trigger] listing[i].0 != #[trigger] listing[j].0
    &&& forall|id: u16| #[trigger]
        entries.contains_key(id) ==> exists|i: int|
            0 <= i < listing.len() && #[trigger] listing[i].0 == id
}

/// The mapping from subscriber identity to its entry.
pub struct SubscriptionRegistry {
    entries: HashMap<u16, Subscription>,
}

impl View for SubscriptionRegistry {
    type V = Map<u16, SubscriptionView>;

    closed spec fn view(&self) -> Map<u16, SubscriptionView> {
        Map::new(|id: u16| self.entries@.contains_key(id), |id: u16| self.entries@[id]@)
    }
}

impl SubscriptionRegistry {
    /// An empty registry.
    pub fn new() -> (registry: Self)
        ensures
            registry@ == Map::<u16, SubscriptionView>::empty(),
    {
        let registry = SubscriptionRegistry { entries: HashMap::new() };
        assert(registry@ =~= Map::<u16, SubscriptionView>::empty());
        registry
    }

    /// A registry holds finitely many entries.
    pub proof fn lemma_finite(&self)
        ensures
            self@.dom().finite(),
    {
        assert(self@.dom() =~= self.entries@.dom());
    }

    /// Whether `id` is registered.
    pub fn contains(&self, id: u16) -> (present: bool)
        ensures
            present == self@.contains_key(id),
    {
        self.entries.contains_key(&id)
    }

    /// Adds `id` with `watch_list`, last seen at `now`. Fails with
    /// `PortInUse`, changing nothing, when `id` is already registered.
    pub fn register(&mut self, id: u16, watch_list: Vec<String>, now: u64) -> (outcome: Result<
        (),
        SessionError,
    >)
        ensures
            final(self)@ == registered(old(self)@, id, symbols_of(watch_list@), now),
            outcome is Ok <==> !old(self)@.contains_key(id),
            outcome matches Err(error) ==> error == SessionError::PortInUse,
    {
        if self.entries.contains_key(&id) {
            return Err(SessionError::PortInUse);
        }
        self.entries.insert(id, Subscription { last_seen: now, watch_list });
        assert(self@ =~= old(self)@.insert(
            id,
            SubscriptionView { last_seen: now, watch_list: symbols_of(watch_list@) },
        ));
        Ok(())
    }

    /// Records a keep-alive of `id` at `now`. The watch-list stays as it
    /// is; an identity that is not registered is left alone.
    pub fn touch(&mut self, id: u16, now: u64)
        ensures
            final(self)@ == touched(old(self)@, id, now),
    {
        match self.entries.remove(&id) {
            Some(entry) => {
                self.entries.insert(id, Subscription { last_seen: now, watch_list: entry.watch_list });
                assert(self@ =~= old(self)@.insert(
                    id,
                    SubscriptionView { last_seen: now, watch_list: old(self)@[id].watch_list },
                ));
            },
            None => {
                assert(self@ =~= old(self)@);
            },
        }
    }

    /// Deletes the entry of `id`, if there is one.
    pub fn remove(&mut self, id: u16)
        ensures
            final(self)@ == old(self)@.remove(id),
    {
        self.entries.remove(&id);
        assert(self@ =~= old(self)@.remove(id));
    }

    /// A point-in-time copy of who watches what, each identity once, in no
    /// particular order. The copy is the caller's: sends that follow need
    /// not hold the registry.
    pub fn snapshot_iterate(&self) -> (listing: Vec<(u16, Vec<String>)>)
        ensures
            lists(listing_view(listing@), self@),
    {
        let mut listing: Vec<(u16, Vec<String>)> = Vec::new();
        let ghost keys = spec_keys_iter(&self.entries).remaining();
        for key in it: self.entries.keys()
            invariant
                it.seq() == keys,
                listing.len() == it.index(),
                forall|i: int|
                    0 <= i < listing.len() ==> (#[trigger] listing[i]).0 == *keys[i]
                        && self.entries@.contains_key(listing[i].0)
                        && listing[i].1@ == self.entries@[listing[i].0].watch_list@,
        {
            proof {
                let at = it.index();
                assert(keys.unref()[at] == *key);
                assert(keys.unref().to_set().contains(*key));
            }
            match self.entries.get(key) {
                Some(entry) => {
                    listing.push((*key, clone_symbols(&entry.watch_list)));
                },
                None => {
                    assert(false);
                },
            }
        }
        proof {
            let view = listing_view(listing@);
            assert(self@.dom() =~= self.entries@.dom());
            assert forall|i: int, j: int| 0 <= i < j < view.len() implies #[trigger] view[i].0
                != #[trigger] view[j].0 by {
                assert(listing[i].0 == *keys[i]);
                assert(listing[j].0 == *keys[j]);
            }
            assert forall|id: u16| #[trigger] self@.contains_key(id) implies exists|i: int|
                0 <= i < view.len() && #[trigger] view[i].0 == id by {
                assert(keys.unref().to_set().contains(id));
                let at = choose|i: int| 0 <= i < keys.unref().len() && keys.unref()[i] == id;
                assert(listing[at].0 == *keys[at]);
                assert(view[at].0 == id);
            }
            assert forall|i: int| 0 <= i < view.len() implies self@.contains_key(
                #[trigger] view[i].0,
            ) && self@[view[i].0].watch_list == view[i].1 by {
                assert(listing[i].0 == *keys[i]);
            }
        }
        listing
    }

    /// Whether `id` is registered and has gone without a keep-alive for
    /// `timeout` or longer at clock reading `now`.
    pub fn is_stale(&self, id: u16, timeout: u64, now: u64) -> (stale: bool)
        ensures
            stale == stale_in(self@, id, timeout, now),
    {
        match self.entries.get(&id) {
            Some(entry) => {
                let gap: u64 = if now >= entry.last_seen {
                    now - entry.last_seen
                } else {
                    0
                };
                gap >= timeout
            },
            None => false,
        }
    }
}

/// An identity is stale exactly when it is registered and its latest
/// keep-alive or, where none came, its registration lies `timeout` or
/// longer back: after a keep-alive at `at`, that is when `timeout` has
/// passed since `at`.
pub proof fn law_keep_alive_refreshes(
    entries: Map<u16, SubscriptionView>,
    id: u16,
    at: u64,
    timeout: u64,
    now: u64,
)
    ensures
        stale_in(touched(entries, id, at), id, timeout, now) <==> entries.contains_key(id)
            && elapsed(at, now) >= timeout,
{
}

/// A new subscription is stale exactly when `timeout` has passed since it
/// was registered.
pub proof fn law_registration_is_fresh(
    entries: Map<u16, SubscriptionView>,
    id: u16,
    watch_list: Seq<Seq<char>>,
    at: u64,
    timeout: u64,
    now: u64,
)
    requires
        !entries.contains_key(id),
    ensures
        stale_in(registered(entries, id, watch_list, at), id, timeout, now) <==> elapsed(at, now)
            >= timeout,
{
}

/// An identity that is not registered is never stale, and none is once it
/// has been removed.
pub proof fn law_absent_is_never_stale(
    entries: Map<u16, SubscriptionView>,
    id: u16,
    timeout: u64,
    now: u64,
)
    ensures
        !entries.contains_key(id) ==> !stale_in(entries, id, timeout, now),
        !stale_in(entries.remove(id), id, timeout, now),
{
}

/// What happens to one identity leaves the staleness of every other as it
/// was.
pub proof fn law_staleness_is_per_identity(
    entries: Map<u16, SubscriptionView>,
    id: u16,
    other: u16,
    watch_list: Seq<Seq<char>>,
    at: u64,
    timeout: u64,
    now: u64,
)
    requires
        id != other,
    ensures
        stale_in(touched(entries, other, at), id, timeout, now) == stale_in(
            entries,
            id,
            timeout,
            now,
        ),
        stale_in(registered(entries, other, watch_list, at), id, timeout, now) == stale_in(
            entries,
            id,
            timeout,
            now,
        ),
        stale_in(entries.remove(other), id, timeout, now) == stale_in(entries, id, timeout, now),
{
}

/// Registering an identity that is taken changes nothing: the entry that
/// is there keeps its timestamp and its watch-list.
pub proof fn law_taken_identity_is_kept(
    entries: Map<u16, SubscriptionView>,
    id: u16,
    watch_list: Seq<Seq<char>>,
    now: u64,
)
    requires
        entries.contains_key(id),
    ensures
        registered(entries, id, watch_list, now) == entries,
{
}

/// A keep-alive never adds or drops an identity, and leaves every
/// watch-list as it was.
pub proof fn law_keep_alive_keeps_subscriptions(
    entries: Map<u16, SubscriptionView>,
    id: u16,
    now: u64,
)
    ensures
        touched(entries, id, now).dom() == entries.dom(),
        forall|any: u16| #[trigger]
            entries.contains_key(any) ==> touched(entries, id, now)[any].watch_list
                == entries[any].watch_list,
{
    assert(touched(entries, id, now).dom() =~= entries.dom());
}

/// Removing twice is removing once.
pub proof fn law_remove_is_idempotent(entries: Map<u16, SubscriptionView>, id: u16)
    ensures
        entries.remove(id).remove(id) == entries.remove(id),
        !entries.contains_key(id) ==> entries.remove(id) == entries,
{
    assert(entries.remove(id).remove(id) =~= entries.remove(id));
    if !entries.contains_key(id) {
        assert(entries.remove(id) =~= entries);
    }
}

/// One operation on the registry, as it is asked for.
pub enum RegistryOp {
    /// An attempt to register `id` at `at`.
    Register { id: u16, watch_list: Seq<Seq<char>>, at: u64 },
    /// A keep-alive of `id` at `at`.
    Touch { id: u16, at: u64 },
    /// The removal of `id`.
    Remove { id: u16 },
}

/// `entries` after `op`.
pub open spec fn applied(entries: Map<u16, SubscriptionView>, op: RegistryOp) -> Map<
    u16,
    SubscriptionView,
> {
    match op {
        RegistryOp::Register { id, watch_list, at } => registered(entries, id, watch_list, at),
        RegistryOp::Touch { id, at } => touched(entries, id, at),
        RegistryOp::Remove { id } => entries.remove(id),
    }
}

/// The entries of a registry that was empty and has seen `ops`, one after
/// the other.
pub open spec fn entries_after(ops: Seq<RegistryOp>) -> Map<u16, SubscriptionView>
    decreases ops.len(),
{
    if ops.len() == 0 {
        Map::empty()
    } else {
        applied(entries_after(ops.drop_last()), ops.last())
    }
}

/// When `id` was last heard from in `ops`, if it is registered after them:
/// the time of its latest keep-alive since it was registered or, where none
/// came, of the registration. A registration that failed, a keep-alive of
/// an identity that is not registered, and whatever came before a removal
/// do not count.
pub open spec fn last_heard(ops: Seq<RegistryOp>, id: u16) -> Option<u64>
    decreases ops.len(),
{
    if ops.len() == 0 {
        None
    } else {
        let before = last_heard(ops.drop_last(), id);
        match ops.last() {
            RegistryOp::Register { id: who, watch_list, at } => if who == id && before is None {
                Some(at)
            } else {
                before
            },
            RegistryOp::Touch { id: who, at } => if who == id && before is Some {
                Some(at)
            } else {
                before
            },
            RegistryOp::Remove { id: who } => if who == id {
                None
            } else {
                before
            },
        }
    }
}

/// Whatever the registry has seen, an identity is stale exactly when it is
/// registered and was last heard from `timeout` or longer ago; one that is
/// not registered is not stale.
pub proof fn law_stale_means_silent(ops: Seq<RegistryOp>, id: u16, timeout: u64, now: u64)
    ensures
        entries_after(ops).contains_key(id) <==> last_heard(ops, id) is Some,
        last_heard(ops, id) matches Some(at) ==> entries_after(ops)[id].last_seen == at,
        stale_in(entries_after(ops), id, timeout, now) <==> (last_heard(ops, id) matches Some(at)
            && elapsed(at, now) >= timeout),
    decreases ops.len(),
{
    if ops.len() > 0 {
        law_stale_means_silent(ops.drop_last(), id, timeout, now);
    }
}

} // verus!
