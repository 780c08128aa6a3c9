//! The liveness monitor's part that decides: which datagrams are
//! keep-alives, and what a keep-alive does.

use vstd::prelude::*;
use crate::registry::{touched, SubscriptionRegistry};

verus! {

/// The payload of a keep-alive datagram: the four bytes of `PING`.
pub open spec fn keep_alive_payload() -> Seq<u8> {
    seq![0x50u8, 0x49u8, 0x4eu8, 0x47u8]
}

/// The payload that a subscriber sends to show that it is alive.
pub fn keep_alive() -> (payload: Vec<u8>)
    ensures
        payload@ == keep_alive_payload(),
{
    let mut payload: Vec<u8> = Vec::new();
    payload.push(0x50);
    payload.push(0x49);
    payload.push(0x4e);
    payload.push(0x47);
    assert(payload@ =~= keep_alive_payload());
    payload
}

/// Whether `payload` is a keep-alive: exactly [`keep_alive_payload`].
pub fn is_keep_alive(payload: &[u8]) -> (recognized: bool)
    ensures
        recognized == (payload@ == keep_alive_payload()),
{
    if payload.len() != 4 {
        return false;
    }
    let recognized = payload[0] == 0x50 && payload[1] == 0x49 && payload[2] == 0x4e && payload[3]
        == 0x47;
    if recognized {
        assert(payload@ =~= keep_alive_payload());
    }
    recognized
}

/// Takes one datagram that came from `sender_port` at `now`: a keep-alive
/// refreshes the sender's entry, anything else is dropped. Says whether the
/// datagram was a keep-alive.
pub fn on_datagram(
    registry: &mut SubscriptionRegistry,
    payload: &[u8],
    sender_port: u16,
    now: u64,
) -> (recognized: bool)
    ensures
        recognized == (payload@ == keep_alive_payload()),
        recognized ==> final(registry)@ == touched(old(registry)@, sender_port, now),
        !recognized ==> final(registry)@ == old(registry)@,
{
    if is_keep_alive(payload) {
        registry.touch(sender_port, now);
        true
    } else {
        false
    }
}

} // verus!
