//! Stateful connection tracking for the one-way "Disable remote access" block.
//!
//! When a device turns the switch on, it should still be able to reach other
//! members (out), but no member should be able to initiate to it (in). A
//! stateless "drop all inbound" filter can't do that: it would also drop the
//! return traffic of connections this device started. So the flows that this
//! device initiates are tracked on the outbound path and, while the block is on,
//! an inbound packet is admitted only if it matches the reverse of a tracked
//! flow.
//!
//! The table is keyed by [`FlowKey`] and stores a coarse last-seen timestamp;
//! entries idle past [`FLOW_TTL_MS`] are swept on the periodic tick.

use std::collections::HashMap;

use vstd::prelude::*;

use crate::router;
use crate::router::{flow_key, is_tcp_initiation, FlowKey};

verus! {

broadcast use vstd::std_specs::hash::group_hash_axioms;

/// Idle lifetime of a tracked flow. Long enough to cover a quiet RDP/SSH session
/// between keepalives; short enough that the table self-trims.
pub const FLOW_TTL_MS: u64 = 120_000;

/// Tracks the flows this device initiated, so return traffic is allowed back in
/// while unsolicited inbound is dropped.
pub struct Conntrack {
    flows: HashMap<u128, u64>,
}

/// A flow as a number.
spec fn packed(k: FlowKey) -> int {
    (((k.src.bits() * 0x1_0000_0000 + k.dst.bits()) * 0x100 + k.proto) * 0x1_0000 + k.sport) * 0x1_0000
        + k.dport
}

proof fn lemma_packed(k: FlowKey)
    ensures
        0 <= packed(k) <= u128::MAX,
{
}

/// Two digits tell a number.
proof fn lemma_digits(a: int, b: int, c: int, d: int, base: int)
    by (nonlinear_arith)
    requires
        a * base + b == c * base + d,
        0 <= b < base,
        0 <= d < base,
    ensures
        a == c,
        b == d,
{
}

/// Different flows have different numbers.
proof fn lemma_packed_injective(j: FlowKey, k: FlowKey)
    requires
        packed(j) == packed(k),
    ensures
        j == k,
{
    let j1 = j.src.bits() * 0x1_0000_0000 + j.dst.bits();
    let k1 = k.src.bits() * 0x1_0000_0000 + k.dst.bits();
    let j2 = j1 * 0x100 + j.proto;
    let k2 = k1 * 0x100 + k.proto;
    let j3 = j2 * 0x1_0000 + j.sport;
    let k3 = k2 * 0x1_0000 + k.sport;
    lemma_digits(j3, j.dport as int, k3, k.dport as int, 0x1_0000);
    lemma_digits(j2, j.sport as int, k2, k.sport as int, 0x1_0000);
    lemma_digits(j1, j.proto as int, k1, k.proto as int, 0x100);
    lemma_digits(
        j.src.bits() as int,
        j.dst.bits() as int,
        k.src.bits() as int,
        k.dst.bits() as int,
        0x1_0000_0000,
    );
    crate::addr::lemma_bits_injective(j.src, k.src);
    crate::addr::lemma_bits_injective(j.dst, k.dst);
}

/// The flow as a number.
fn pack(k: &FlowKey) -> (r: u128)
    ensures
        r == packed(*k),
{
    proof {
        lemma_packed(*k);
    }
    (((k.src.to_bits() as u128 * 0x1_0000_0000 + k.dst.to_bits() as u128) * 0x100 + k.proto as u128)
        * 0x1_0000 + k.sport as u128) * 0x1_0000 + k.dport as u128
}

/// Whether a flow last seen at `seen` is still alive at `now`.
pub open spec fn alive(seen: u64, now: u64) -> bool {
    now <= seen + FLOW_TTL_MS
}

/// Whether a flow last seen at `seen` is still alive at `now`.
fn is_alive(seen: u64, now: u64) -> (r: bool)
    ensures
        r == alive(seen, now),
{
    now.saturating_sub(seen) <= FLOW_TTL_MS
}

/// The table after an outbound packet: a packet that opens a flow (a TCP SYN, or
/// any packet of another protocol) enters it, any other TCP packet only
/// refreshes a flow that is there, and what has no flow changes nothing.
pub open spec fn recorded(flows: Map<FlowKey, u64>, p: Seq<u8>, now: u64) -> Map<FlowKey, u64> {
    match router::flow_of(p) {
        None => flows,
        Some(k) => if k.proto != 6 || router::opens_tcp(p) || flows.contains_key(k) {
            flows.insert(k, now)
        } else {
            flows
        },
    }
}

/// Whether an inbound packet is return traffic of a live flow in the table.
pub open spec fn admitted(flows: Map<FlowKey, u64>, p: Seq<u8>, now: u64) -> bool {
    match router::flow_of(p) {
        None => false,
        Some(k) => flows.contains_key(k.flipped()) && alive(flows[k.flipped()], now),
    }
}

/// The live flows of the table.
pub open spec fn swept(flows: Map<FlowKey, u64>, now: u64) -> Map<FlowKey, u64> {
    Map::new(|k: FlowKey| flows.contains_key(k) && alive(flows[k], now), |k: FlowKey| flows[k])
}

impl View for Conntrack {
    type V = Map<FlowKey, u64>;

    closed spec fn view(&self) -> Map<FlowKey, u64> {
        Map::new(
            |k: FlowKey| self.flows@.contains_key(packed(k) as u128),
            |k: FlowKey| self.flows@[packed(k) as u128],
        )
    }
}

impl Default for Conntrack {
    /// No tracked flows.
    fn default() -> (r: Conntrack)
        ensures
            r@ == Map::<FlowKey, u64>::empty(),
    {
        let r = Conntrack { flows: HashMap::new() };
        assert(r@ =~= Map::<FlowKey, u64>::empty());
        r
    }
}

impl Conntrack {
    /// Enter a flow, or refresh it.
    fn touch(&mut self, k: &FlowKey, now: u64)
        ensures
            final(self)@ == old(self)@.insert(*k, now),
    {
        let n: u128 = pack(k);
        self.flows.insert(n, now);
        proof {
            assert forall|j: FlowKey|
                #![trigger packed(j)]
                packed(j) as u128 == n implies j == *k by {
                lemma_packed(j);
                lemma_packed_injective(j, *k);
            }
            assert(self@ =~= old(self)@.insert(*k, now));
        }
    }

    /// When a flow was last seen.
    fn seen(&self, k: &FlowKey) -> (r: Option<u64>)
        ensures
            match r {
                Some(t) => self@.contains_key(*k) && t == self@[*k],
                None => !self@.contains_key(*k),
            },
    {
        let n: u128 = pack(k);
        match self.flows.get(&n) {
            Some(t) => Some(*t),
            None => None,
        }
    }

    /// Record or refresh a flow that this device initiated (called on every
    /// outbound packet). `now` is the coarse clock (ms).
    ///
    /// Direction matters: a flow is created only when this device opens it, by a
    /// TCP SYN (client opening a connection), or by the first packet of a UDP or
    /// other flow. Server-side responses (TCP packets with ACK, no SYN) only
    /// refresh a flow that already exists; they never create one. So an inbound
    /// connection to one of our services never becomes "established" in the
    /// table, and enabling the block cuts it, while our own outbound sessions,
    /// refreshed by their ongoing traffic, stay alive.
    pub fn record_outbound(&mut self, pkt: &[u8], now: u64)
        ensures
            final(self)@ == recorded(old(self)@, pkt@, now),
    {
        if let Some(k) = flow_key(pkt) {
            if k.proto == 6 {
                // TCP: create only on a client SYN; otherwise just refresh.
                if is_tcp_initiation(pkt) {
                    self.touch(&k, now);
                } else if self.seen(&k).is_some() {
                    self.touch(&k, now);
                }
            } else {
                // UDP, ICMP and the like: no handshake to read the direction
                // from, so the first outbound packet opens the flow.
                self.touch(&k, now);
            }
        }
    }

    /// Whether an inbound packet is return traffic for a flow we initiated.
    pub fn allows_inbound(&self, pkt: &[u8], now: u64) -> (r: bool)
        ensures
            r == admitted(self@, pkt@, now),
    {
        match flow_key(pkt) {
            None => false,
            Some(k) => match self.seen(&k.reversed()) {
                Some(seen) => is_alive(seen, now),
                None => false,
            },
        }
    }

    /// Drop flows idle past the lifetime (called from the periodic tick).
    pub fn sweep(&mut self, now: u64)
        ensures
            final(self)@ == swept(old(self)@, now),
    {
        let mut stale: Vec<u128> = Vec::new();
        let ghost flows = self.flows@;
        for n in it: self.flows.keys()
            invariant
                flows == self.flows@,
                it.seq().unref().to_set() == flows.dom(),
                forall|i: int|
                    0 <= i < stale@.len() ==> flows.contains_key(#[trigger] stale@[i]) && !alive(
                        flows[stale@[i]],
                        now,
                    ),
                forall|i: int|
                    0 <= i < it.index() && !alive(flows[*it.seq()[i]], now) ==> stale@.contains(
                        *#[trigger] it.seq()[i],
                    ),
        {
            let ghost old_stale = stale@;
            proof {
                assert(it.seq().unref()[it.index() as int] == *n);
                assert(it.seq().unref().to_set().contains(*n));
            }
            match self.flows.get(n) {
                Some(seen) => {
                    if !is_alive(*seen, now) {
                        stale.push(*n);
                        assert(stale@[stale@.len() - 1] == *n);
                    }
                },
                None => {},
            }
            proof {
                assert forall|x: u128| #[trigger] old_stale.contains(x) implies stale@.contains(x) by {
                    let i = old_stale.index_of(x);
                    assert(stale@[i] == x);
                }
            }
        }
        let mut i: usize = 0;
        assert forall|n: u128| flows.contains_key(n) && !alive(flows[n], now) implies #[trigger] stale@.contains(
            n,
        ) by {
            assert(flows.dom().contains(n));
        }
        assert(self.flows@ =~= flows.remove_keys(stale@.take(0).to_set()));
        while i < stale.len()
            invariant
                i <= stale@.len(),
                self.flows@ == flows.remove_keys(stale@.take(i as int).to_set()),
            decreases stale@.len() - i,
        {
            let n: u128 = stale[i];
            self.flows.remove(&n);
            proof {
                let done = stale@.take(i as int);
                assert(stale@.take(i + 1) =~= done.push(n));
                assert forall|m: u128| done.push(n).to_set().contains(m) <==> done.to_set().insert(
                    n,
                ).contains(m) by {
                    if done.contains(m) {
                        assert(done.push(n)[done.index_of(m)] == m);
                    }
                    if m == n {
                        assert(done.push(n)[done.len() as int] == m);
                    }
                }
                assert(done.push(n).to_set() =~= done.to_set().insert(n));
                assert(self.flows@ =~= flows.remove_keys(done.to_set().insert(n)));
            }
            i = i + 1;
        }
        proof {
            assert(stale@.take(i as int) =~= stale@);
            assert forall|n: u128| #[trigger] self.flows@.contains_key(n) <==> flows.contains_key(n) && alive(
                flows[n],
                now,
            ) by {
                if stale@.contains(n) {
                    let j = stale@.index_of(n);
                    assert(!alive(flows[stale@[j]], now));
                }
            }
            assert(self@ =~= swept(old(self)@, now));
        }
    }

    /// Forget all tracked flows (on disconnect or teardown).
    pub fn clear(&mut self)
        ensures
            final(self)@ == Map::<FlowKey, u64>::empty(),
    {
        self.flows.clear();
        assert(self@ =~= Map::<FlowKey, u64>::empty());
    }
}

// ---------------------------------------------------------------------------
// Laws
// ---------------------------------------------------------------------------

/// Something that happens to the table.
pub enum TableEvent {
    /// An outbound packet was recorded.
    Sent { packet: Seq<u8>, at: u64 },
    /// Idle flows were swept.
    Swept { at: u64 },
    /// All flows were forgotten.
    Cleared,
}

/// The table after an event.
pub open spec fn table_step(flows: Map<FlowKey, u64>, ev: TableEvent) -> Map<FlowKey, u64> {
    match ev {
        TableEvent::Sent { packet, at } => recorded(flows, packet, at),
        TableEvent::Swept { at } => swept(flows, at),
        TableEvent::Cleared => Map::empty(),
    }
}

/// The table after a run of events, from when it was empty.
pub open spec fn table_after(events: Seq<TableEvent>) -> Map<FlowKey, u64>
    decreases events.len(),
{
    if events.len() == 0 {
        Map::empty()
    } else {
        table_step(table_after(events.drop_last()), events.last())
    }
}

/// Whether a packet opens the flow `k`.
pub open spec fn opens(p: Seq<u8>, k: FlowKey) -> bool {
    router::flow_of(p) == Some(k) && (k.proto != 6 || router::opens_tcp(p))
}

/// Whether an event is the sending of a packet that opens the flow `k`.
pub open spec fn opening(ev: TableEvent, k: FlowKey) -> bool {
    ev matches TableEvent::Sent { packet, .. } && opens(packet, k)
}

/// Whether an event is the sending of a packet of the flow `k` at time `t`.
pub open spec fn sent_on(ev: TableEvent, k: FlowKey, t: u64) -> bool {
    ev matches TableEvent::Sent { packet, at } && router::flow_of(packet) == Some(k) && at == t
}

/// Whether the flows were not forgotten after event `i`.
pub open spec fn uncleared_since(events: Seq<TableEvent>, i: int) -> bool {
    forall|j: int| i < j < events.len() ==> !((#[trigger] events[j]) is Cleared)
}

/// Whether event `i` opened the flow `k`, event `j`, not before it, sent a packet
/// of that flow at time `t`, and the flows were not forgotten since `i`.
pub open spec fn tracked_by(events: Seq<TableEvent>, k: FlowKey, t: u64, i: int, j: int) -> bool {
    &&& 0 <= i <= j < events.len()
    &&& opening(events[i], k)
    &&& sent_on(events[j], k, t)
    &&& uncleared_since(events, i)
}

/// A flow is in the table only because this device opened it.
proof fn lemma_tracked_was_opened(events: Seq<TableEvent>, k: FlowKey)
    requires
        table_after(events).contains_key(k),
    ensures
        exists|i: int, j: int| #[trigger] tracked_by(events, k, table_after(events)[k], i, j),
    decreases events.len(),
{
    if events.len() > 0 {
        let rest = events.drop_last();
        let n = events.len() - 1;
        let t = table_after(events)[k];
        assert(events[n] == events.last());
        if opening(events[n], k) {
            assert(tracked_by(events, k, t, n, n));
        } else {
            lemma_tracked_was_opened(rest, k);
            let (i, j) = choose|i: int, j: int| #[trigger]
                tracked_by(rest, k, table_after(rest)[k], i, j);
            assert(events[i] == rest[i] && events[j] == rest[j]);
            assert forall|c: int| i < c < events.len() implies !((#[trigger] events[c]) is Cleared) by {
                if c < n {
                    assert(events[c] == rest[c]);
                }
            }
            if sent_on(events[n], k, t) {
                assert(tracked_by(events, k, t, i, n));
            } else {
                assert(tracked_by(events, k, t, i, j));
            }
        }
    }
}

/// Unsolicited inbound traffic is dropped, whatever was sent, swept and cleared:
/// a packet is admitted only if, since the flows were last forgotten, this device
/// itself sent a packet that opened the flow of which it is the return traffic,
/// and sent one on that flow no longer ago than the lifetime.
pub proof fn law_unsolicited_is_dropped(events: Seq<TableEvent>, p: Seq<u8>, now: u64)
    requires
        admitted(table_after(events), p, now),
    ensures
        exists|i: int, j: int, t: u64| #[trigger]
            tracked_by(events, router::flow_of(p)->0.flipped(), t, i, j) && alive(t, now),
{
    let k = router::flow_of(p)->0.flipped();
    lemma_tracked_was_opened(events, k);
    let (i, j) = choose|i: int, j: int| #[trigger]
        tracked_by(events, k, table_after(events)[k], i, j);
    assert(tracked_by(events, k, table_after(events)[k], i, j));
}

/// The replies of a server never open a flow: as long as this device has sent no
/// client's SYN on a TCP flow since the flows were last forgotten, the peer's side
/// of that connection stays out, whatever else it sent and swept.
pub proof fn law_server_replies_open_nothing(events: Seq<TableEvent>, p: Seq<u8>, now: u64)
    requires
        router::flow_of(p) is Some,
        router::flow_of(p)->0.proto == 6,
        forall|i: int|
            0 <= i < events.len() && uncleared_since(events, i) && (#[trigger] events[i] matches
                TableEvent::Sent { packet, .. } && router::flow_of(packet) == Some(
                router::flow_of(p)->0.flipped(),
            )) ==> !router::opens_tcp(events[i]->packet),
    ensures
        !admitted(table_after(events), p, now),
{
    if admitted(table_after(events), p, now) {
        law_unsolicited_is_dropped(events, p, now);
        let k = router::flow_of(p)->0.flipped();
        let (i, j, t) = choose|i: int, j: int, t: u64| #[trigger]
            tracked_by(events, k, t, i, j) && alive(t, now);
        assert(opening(events[i], k));
    }
}

/// A flow that this device opened stays open: until its lifetime has passed, its
/// return traffic is admitted, whatever else is sent and swept in the meantime,
/// as long as nothing is cleared and the clock does not run backwards on it.
pub proof fn law_opened_flow_stays_open(events: Seq<TableEvent>, i: int, p: Seq<u8>, now: u64)
    requires
        router::flow_of(p) is Some,
        0 <= i < events.len(),
        opening(events[i], router::flow_of(p)->0.flipped()),
        uncleared_since(events, i),
        forall|j: int|
            i < j < events.len() ==> match #[trigger] events[j] {
                TableEvent::Sent { packet, at } => router::flow_of(packet) == Some(
                    router::flow_of(p)->0.flipped(),
                ) ==> events[i]->Sent_at <= at,
                TableEvent::Swept { at } => at <= now,
                TableEvent::Cleared => true,
            },
        now <= events[i]->Sent_at + FLOW_TTL_MS,
    ensures
        admitted(table_after(events), p, now),
{
    lemma_opened_flow_is_tracked(events, i, router::flow_of(p)->0.flipped(), now);
}

proof fn lemma_opened_flow_is_tracked(events: Seq<TableEvent>, i: int, k: FlowKey, now: u64)
    requires
        0 <= i < events.len(),
        opening(events[i], k),
        uncleared_since(events, i),
        forall|j: int|
            i < j < events.len() ==> match #[trigger] events[j] {
                TableEvent::Sent { packet, at } => router::flow_of(packet) == Some(k)
                    ==> events[i]->Sent_at <= at,
                TableEvent::Swept { at } => at <= now,
                TableEvent::Cleared => true,
            },
        now <= events[i]->Sent_at + FLOW_TTL_MS,
    ensures
        table_after(events).contains_key(k),
        table_after(events)[k] >= events[i]->Sent_at,
    decreases events.len(),
{
    let n = events.len() - 1;
    assert(events[n] == events.last());
    if i < n {
        let rest = events.drop_last();
        assert(forall|j: int| 0 <= j < rest.len() ==> #[trigger] rest[j] == events[j]);
        lemma_opened_flow_is_tracked(rest, i, k, now);
    }
}

/// Return traffic comes back in: once this device has opened a flow, packets of
/// the reverse flow are admitted until the flow has been idle for its lifetime.
pub proof fn law_return_traffic_is_admitted(
    flows: Map<FlowKey, u64>,
    out: Seq<u8>,
    sent_at: u64,
    reply: Seq<u8>,
    now: u64,
)
    requires
        router::flow_of(reply) is Some,
        opens(out, router::flow_of(reply)->0.flipped()),
    ensures
        admitted(recorded(flows, out, sent_at), reply, now) <==> now <= sent_at + FLOW_TTL_MS,
{
}

/// Our own sessions stay alive: on a tracked flow every further outbound packet
/// starts the idle time anew.
pub proof fn law_outbound_traffic_refreshes(
    flows: Map<FlowKey, u64>,
    out: Seq<u8>,
    sent_at: u64,
    reply: Seq<u8>,
    now: u64,
)
    requires
        router::flow_of(reply) is Some,
        router::flow_of(out) == Some(router::flow_of(reply)->0.flipped()),
        flows.contains_key(router::flow_of(out)->0),
    ensures
        admitted(recorded(flows, out, sent_at), reply, now) <==> now <= sent_at + FLOW_TTL_MS,
{
}

/// Traffic on one flow leaves every other flow as it was.
pub proof fn law_flows_are_independent(flows: Map<FlowKey, u64>, out: Seq<u8>, sent_at: u64, k: FlowKey)
    requires
        router::flow_of(out) != Some(k),
    ensures
        recorded(flows, out, sent_at).contains_key(k) == flows.contains_key(k),
        flows.contains_key(k) ==> recorded(flows, out, sent_at)[k] == flows[k],
{
}

/// Sweeping is invisible: what is swept away would not have been admitted at
/// that time or later, and everything else is admitted as before.
pub proof fn law_sweep_is_invisible(flows: Map<FlowKey, u64>, swept_at: u64, p: Seq<u8>, now: u64)
    requires
        swept_at <= now,
    ensures
        admitted(swept(flows, swept_at), p, now) == admitted(flows, p, now),
{
}

/// After forgetting all flows nothing is admitted.
pub proof fn law_empty_table_admits_nothing(p: Seq<u8>, now: u64)
    ensures
        !admitted(Map::empty(), p, now),
{
}

} // verus!
