//! What the data plane does, in terms of the bytes of the packets.
//!
//! These laws speak of the bits of a packet, of the members of a roster and of
//! the entries of a flow table, and of what the functions of [`crate::router`]
//! and [`crate::conntrack`] make of them.

use vstd::prelude::*;

use crate::addr::Ipv4Addr;
use crate::conntrack;
use crate::conntrack::Conntrack;
use crate::ids::Id;
use crate::roster;
use crate::roster::{Member, Roster};
use crate::router;
use crate::router::{FlowKey, RouteTable};

verus! {

// ---------------------------------------------------------------------------
// Reading packets
// ---------------------------------------------------------------------------

/// The version in the high nibble of the first byte is 4, and the fixed part of
/// the header is there.
pub open spec fn version_four(p: Seq<u8>) -> bool {
    p.len() >= 20 && p[0] >> 4u8 == 4u8
}

/// The header length in the low nibble of the first byte, in bytes.
pub open spec fn header_bytes(p: Seq<u8>) -> int {
    (p[0] & 0x0fu8) * 4
}

/// Whether the four bytes of a packet from `i` on are the octets of an address.
pub open spec fn holds_at(p: Seq<u8>, i: int, ip: Ipv4Addr) -> bool {
    p[i] == ip.a && p[i + 1] == ip.b && p[i + 2] == ip.c && p[i + 3] == ip.d
}

/// The nibbles of the first byte.
proof fn lemma_nibbles(b: u8)
    ensures
        (b >> 4u8 == 4u8) == (b / 16 == 4),
        b & 0x0fu8 == b % 16,
{
    assert((b >> 4u8 == 4u8) == (b / 16 == 4)) by (bit_vector);
    assert(b & 0x0fu8 == b % 16) by (bit_vector);
}

/// The flags of a TCP segment that open a connection.
proof fn lemma_flags(f: u8)
    ensures
        (f & 0x02u8 != 0) == (f / 2 % 2 == 1),
        (f & 0x10u8 == 0) == (f / 16 % 2 == 0),
{
    assert((f & 0x02u8 != 0) == (f / 2 % 2 == 1)) by (bit_vector);
    assert((f & 0x10u8 == 0) == (f / 16 % 2 == 0)) by (bit_vector);
}

/// Every packet of at least 20 bytes whose first byte has the high nibble 4 has
/// its destination in bytes 16 to 19, whatever its other bytes are; no other
/// packet has one.
pub proof fn law_destination_is_in_the_header(pkt: &[u8], r: Option<Ipv4Addr>)
    requires
        call_ensures(router::dst_ipv4, (pkt,), r),
    ensures
        pkt@.len() >= 20 && pkt@[0] >> 4u8 == 4u8 ==> r == Some(
            Ipv4Addr { a: pkt@[16], b: pkt@[17], c: pkt@[18], d: pkt@[19] },
        ),
        pkt@.len() < 20 || pkt@[0] >> 4u8 != 4u8 ==> r is None,
{
    if pkt@.len() >= 20 {
        lemma_nibbles(pkt@[0]);
    }
}

/// Every packet of at least 20 bytes whose first byte has the high nibble 4 has
/// its source in bytes 12 to 15, whatever its other bytes are; no other packet has
/// one.
pub proof fn law_source_is_in_the_header(pkt: &[u8], r: Option<Ipv4Addr>)
    requires
        call_ensures(router::src_ipv4, (pkt,), r),
    ensures
        pkt@.len() >= 20 && pkt@[0] >> 4u8 == 4u8 ==> r == Some(
            Ipv4Addr { a: pkt@[12], b: pkt@[13], c: pkt@[14], d: pkt@[15] },
        ),
        pkt@.len() < 20 || pkt@[0] >> 4u8 != 4u8 ==> r is None,
{
    if pkt@.len() >= 20 {
        lemma_nibbles(pkt@[0]);
    }
}

/// Whether a packet belongs to the flow `k`: the addresses are in the header, the
/// protocol is byte 9, and for TCP and UDP the ports are the first four bytes
/// behind the header, most significant byte first.
pub open spec fn carries(p: Seq<u8>, k: FlowKey) -> bool {
    &&& version_four(p)
    &&& header_bytes(p) >= 20
    &&& holds_at(p, 12, k.src)
    &&& holds_at(p, 16, k.dst)
    &&& k.proto == p[9]
    &&& if p[9] == 6 || p[9] == 17 {
        &&& p.len() >= header_bytes(p) + 4
        &&& k.sport == p[header_bytes(p)] * 256 + p[header_bytes(p) + 1]
        &&& k.dport == p[header_bytes(p) + 2] * 256 + p[header_bytes(p) + 3]
    } else {
        k.sport == 0 && k.dport == 0
    }
}

/// Whether a packet is too malformed to belong to a flow.
pub open spec fn carries_nothing(p: Seq<u8>) -> bool {
    ||| !version_four(p)
    ||| header_bytes(p) < 20
    ||| (p[9] == 6 || p[9] == 17) && p.len() < header_bytes(p) + 4
}

/// The flow of a packet is the one that its bytes name; a packet has one exactly
/// if its header and its ports are there.
pub proof fn law_flow_is_in_the_bytes(p: Seq<u8>, k: FlowKey)
    ensures
        router::flow_of(p) == Some(k) <==> carries(p, k),
        router::flow_of(p) is None <==> carries_nothing(p),
{
    if p.len() >= 20 {
        lemma_nibbles(p[0]);
    }
}

/// The flow that is read off a packet is the one that its bytes name.
pub proof fn law_flow_key_reads_the_bytes(pkt: &[u8], r: Option<FlowKey>)
    requires
        call_ensures(router::flow_key, (pkt,), r),
    ensures
        match r {
            Some(k) => carries(pkt@, k),
            None => carries_nothing(pkt@),
        },
{
    match r {
        Some(k) => law_flow_is_in_the_bytes(pkt@, k),
        None => law_flow_is_in_the_bytes(pkt@, arbitrary()),
    }
}

/// Whether the flags byte of a TCP packet, at offset 13 of its TCP header, is
/// there.
pub open spec fn has_tcp_flags(p: Seq<u8>) -> bool {
    version_four(p) && header_bytes(p) >= 20 && p[9] == 6 && p.len() > header_bytes(p) + 13
}

/// A packet opens a TCP connection exactly if its flags byte has SYN set and ACK
/// clear.
pub proof fn law_opening_is_syn_without_ack(p: Seq<u8>)
    ensures
        router::opens_tcp(p) <==> has_tcp_flags(p) && p[header_bytes(p) + 13] & 0x02u8 != 0 && p[
        header_bytes(p) + 13] & 0x10u8 == 0,
{
    if p.len() >= 20 {
        lemma_nibbles(p[0]);
        if has_tcp_flags(p) {
            lemma_flags(p[header_bytes(p) + 13]);
        }
    }
}

/// A packet is taken for an opening one exactly if its flags byte has SYN set and
/// ACK clear.
pub proof fn law_initiation_reads_the_flags(pkt: &[u8], r: bool)
    requires
        call_ensures(router::is_tcp_initiation, (pkt,), r),
    ensures
        r <==> has_tcp_flags(pkt@) && pkt@[header_bytes(pkt@) + 13] & 0x02u8 != 0 && pkt@[header_bytes(
            pkt@,
        ) + 13] & 0x10u8 == 0,
{
    law_opening_is_syn_without_ack(pkt@);
}

/// The flow as its receiver sees it has the ends swapped and the protocol kept.
pub proof fn law_reversal_swaps_the_ends(k: FlowKey, r: FlowKey)
    requires
        call_ensures(FlowKey::reversed, (&k,), r),
    ensures
        r.src == k.dst,
        r.dst == k.src,
        r.sport == k.dport,
        r.dport == k.sport,
        r.proto == k.proto,
{
}

// ---------------------------------------------------------------------------
// The flow table
// ---------------------------------------------------------------------------

/// A packet that carries a flow enters it with its time if it is no TCP packet, if
/// it has SYN set and ACK clear, or if the flow is there already; otherwise the
/// table stays as it was.
pub proof fn law_outbound_packet_enters_its_flow(
    flows: Map<FlowKey, u64>,
    p: Seq<u8>,
    now: u64,
    k: FlowKey,
)
    requires
        carries(p, k),
    ensures
        p[9] != 6 || flows.contains_key(k) ==> conntrack::recorded(flows, p, now) == flows.insert(k, now),
        has_tcp_flags(p) && p[header_bytes(p) + 13] & 0x02u8 != 0 && p[header_bytes(p) + 13] & 0x10u8 == 0
            ==> conntrack::recorded(flows, p, now) == flows.insert(k, now),
        p[9] == 6 && !flows.contains_key(k) && !has_tcp_flags(p) ==> conntrack::recorded(flows, p, now)
            == flows,
        has_tcp_flags(p) && !flows.contains_key(k) && p[header_bytes(p) + 13] & 0x02u8 == 0
            ==> conntrack::recorded(flows, p, now) == flows,
{
    law_flow_is_in_the_bytes(p, k);
    law_opening_is_syn_without_ack(p);
}

/// A TCP packet with ACK set leaves a table without its flow as it was: a server's
/// reply never creates a flow.
pub proof fn law_ack_creates_no_flow(flows: Map<FlowKey, u64>, p: Seq<u8>, now: u64, k: FlowKey)
    requires
        carries(p, k),
        has_tcp_flags(p),
        p[header_bytes(p) + 13] & 0x10u8 != 0,
        !flows.contains_key(k),
    ensures
        conntrack::recorded(flows, p, now) == flows,
{
    law_flow_is_in_the_bytes(p, k);
    law_opening_is_syn_without_ack(p);
}

/// A packet that carries no flow leaves the table as it was, and is not let in.
pub proof fn law_packets_without_a_flow_do_nothing(flows: Map<FlowKey, u64>, p: Seq<u8>, now: u64)
    requires
        carries_nothing(p),
    ensures
        conntrack::recorded(flows, p, now) == flows,
        !conntrack::admitted(flows, p, now),
{
    law_flow_is_in_the_bytes(p, arbitrary());
}

/// An inbound packet is let in exactly if the flow with its ends swapped is in the
/// table and was last seen no more than two minutes ago, or later than now.
pub proof fn law_inbound_packet_needs_the_reverse_flow(
    flows: Map<FlowKey, u64>,
    p: Seq<u8>,
    now: u64,
    k: FlowKey,
    back: FlowKey,
)
    requires
        carries(p, k),
        back.src == k.dst,
        back.dst == k.src,
        back.sport == k.dport,
        back.dport == k.sport,
        back.proto == k.proto,
    ensures
        conntrack::admitted(flows, p, now) <==> flows.contains_key(back) && now - flows[back] <= 120_000,
{
    law_flow_is_in_the_bytes(p, k);
}

/// Sweeping keeps exactly the flows that were last seen no more than two minutes
/// ago, or later than now, with the times that they had.
pub proof fn law_sweep_keeps_the_live_flows(flows: Map<FlowKey, u64>, now: u64, k: FlowKey)
    ensures
        conntrack::swept(flows, now).contains_key(k) <==> flows.contains_key(k) && now - flows[k] <= 120_000,
        conntrack::swept(flows, now).contains_key(k) ==> conntrack::swept(flows, now)[k] == flows[k],
{
}

/// What one device sends to open a flow lets the other's answer in: if one packet
/// goes from here to there and another comes from there to here, over the same
/// ports of the same protocol, then recording the first admits the second for two
/// minutes, where the first opens the flow.
pub proof fn law_answers_come_back(
    flows: Map<FlowKey, u64>,
    out: Seq<u8>,
    answer: Seq<u8>,
    k: FlowKey,
    back: FlowKey,
    sent_at: u64,
    now: u64,
)
    requires
        carries(out, k),
        carries(answer, back),
        back.src == k.dst,
        back.dst == k.src,
        back.sport == k.dport,
        back.dport == k.sport,
        back.proto == k.proto,
        out[9] != 6 || (has_tcp_flags(out) && out[header_bytes(out) + 13] & 0x02u8 != 0 && out[
        header_bytes(out) + 13] & 0x10u8 == 0),
    ensures
        conntrack::admitted(conntrack::recorded(flows, out, sent_at), answer, now) <==> now - sent_at
            <= 120_000,
{
    law_outbound_packet_enters_its_flow(flows, out, sent_at, k);
    law_inbound_packet_needs_the_reverse_flow(
        conntrack::recorded(flows, out, sent_at),
        answer,
        now,
        back,
        k,
    );
}

/// Recording a packet of this device puts its flow into the table, with the time,
/// if the packet opens the flow or the flow is there already, and changes nothing
/// else; a TCP packet with ACK set never brings a flow into the table.
pub proof fn law_recording_enters_the_flow(t: &mut Conntrack, pkt: &[u8], now: u64, k: FlowKey)
    requires
        call_ensures(Conntrack::record_outbound, (t, pkt, now), ()),
        carries(pkt@, k),
    ensures
        old(t)@.contains_key(k) || pkt@[9] != 6 || (has_tcp_flags(pkt@) && pkt@[header_bytes(pkt@) + 13]
            & 0x02u8 != 0 && pkt@[header_bytes(pkt@) + 13] & 0x10u8 == 0) ==> final(t)@ == old(
            t,
        )@.insert(k, now),
        !old(t)@.contains_key(k) && pkt@[9] == 6 && (has_tcp_flags(pkt@) ==> pkt@[header_bytes(pkt@) + 13]
            & 0x02u8 == 0 || pkt@[header_bytes(pkt@) + 13] & 0x10u8 != 0) ==> final(t)@ == old(t)@,
{
    law_outbound_packet_enters_its_flow(old(t)@, pkt@, now, k);
    if has_tcp_flags(pkt@) && pkt@[header_bytes(pkt@) + 13] & 0x10u8 != 0 && !old(t)@.contains_key(k) {
        law_ack_creates_no_flow(old(t)@, pkt@, now, k);
    }
}

/// A packet is let in exactly if it carries a flow whose reverse is in the table
/// and was last seen no more than two minutes ago.
pub proof fn law_admission_needs_the_reverse_flow(
    t: &Conntrack,
    pkt: &[u8],
    now: u64,
    r: bool,
    k: FlowKey,
    back: FlowKey,
)
    requires
        call_ensures(Conntrack::allows_inbound, (t, pkt, now), r),
        back.src == k.dst,
        back.dst == k.src,
        back.sport == k.dport,
        back.dport == k.sport,
        back.proto == k.proto,
    ensures
        carries(pkt@, k) ==> (r <==> t@.contains_key(back) && now - t@[back] <= 120_000),
        carries_nothing(pkt@) ==> !r,
{
    if carries(pkt@, k) {
        law_inbound_packet_needs_the_reverse_flow(t@, pkt@, now, k, back);
    }
    if carries_nothing(pkt@) {
        law_packets_without_a_flow_do_nothing(t@, pkt@, now);
    }
}

/// The answer to a packet that opened a flow is let in for two minutes after it,
/// and not later.
pub proof fn law_recorded_flows_are_answered(
    t: &mut Conntrack,
    out: &[u8],
    sent_at: u64,
    k: FlowKey,
    answer: &[u8],
    now: u64,
    back: FlowKey,
)
    requires
        call_ensures(Conntrack::record_outbound, (t, out, sent_at), ()),
        carries(out@, k),
        out@[9] != 6 || (has_tcp_flags(out@) && out@[header_bytes(out@) + 13] & 0x02u8 != 0 && out@[
        header_bytes(out@) + 13] & 0x10u8 == 0),
        carries(answer@, back),
        back.src == k.dst,
        back.dst == k.src,
        back.sport == k.dport,
        back.dport == k.sport,
        back.proto == k.proto,
    ensures
        forall|r: bool| #[trigger]
            call_ensures(Conntrack::allows_inbound, (final(t), answer, now), r) ==> r == (now - sent_at
                <= 120_000),
{
    law_answers_come_back(old(t)@, out@, answer@, k, back, sent_at, now);
}

/// Sweeping keeps exactly the flows last seen no more than two minutes ago.
pub proof fn law_sweeping_keeps_the_live_flows(t: &mut Conntrack, now: u64, k: FlowKey)
    requires
        call_ensures(Conntrack::sweep, (t, now), ()),
    ensures
        final(t)@.contains_key(k) <==> old(t)@.contains_key(k) && now - old(t)@[k] <= 120_000,
        final(t)@.contains_key(k) ==> final(t)@[k] == old(t)@[k],
{
    law_sweep_keeps_the_live_flows(old(t)@, now, k);
}

/// Clearing forgets every flow.
pub proof fn law_clearing_forgets_everything(t: &mut Conntrack, k: FlowKey)
    requires
        call_ensures(Conntrack::clear, (t,), ()),
    ensures
        !final(t)@.contains_key(k),
{
}

// ---------------------------------------------------------------------------
// Routing and addresses
// ---------------------------------------------------------------------------

/// The table of a roster leads every address that a member holds to a member that
/// holds it, and no other address anywhere; where several hold it, to none that
/// another holder comes after in the order of their bytes.
pub proof fn law_table_follows_the_roster(
    roster: &Roster,
    table: RouteTable,
    ip: Ipv4Addr,
    k: Seq<u8>,
    i: int,
)
    requires
        call_ensures(RouteTable::from_roster, (roster,), table),
    ensures
        table@.contains_key(ip) ==> roster@.members.contains_key(table@[ip])
            && roster@.members[table@[ip]].virtual_ip == ip,
        roster@.members.contains_key(k) && roster@.members[k].virtual_ip == ip ==> table@.contains_key(ip),
        roster@.members.contains_key(k) && roster@.members[k].virtual_ip == ip && k.len() == 32
            && table@[ip].len() == 32 && 0 <= i < 32 && (forall|j: int|
            0 <= j < i ==> k[j] == table@[ip][j]) ==> k[i] <= table@[ip][i],
{
    let members = roster@.members;
    if table@.contains_key(ip) {
        assert(router::owns(members, ip, table@[ip]));
    }
    if members.contains_key(k) && members[k].virtual_ip == ip {
        assert(router::owns(members, ip, k));
        let t = table@[ip];
        if k.len() == 32 && t.len() == 32 && 0 <= i < 32 && (forall|j: int| 0 <= j < i ==> k[j] == t[j])
            && k[i] > t[i] {
            crate::ids::lemma_rank_first_difference(t, k, i);
        }
    }
}

/// A lookup gives the owner in the table, and nothing where there is none.
pub proof fn law_lookup_reads_the_table(table: &RouteTable, ip: Ipv4Addr, r: Option<Id>)
    requires
        call_ensures(RouteTable::lookup, (table, &ip), r),
    ensures
        r is Some <==> table@.contains_key(ip),
        r matches Some(id) ==> id@ == table@[ip],
{
}

/// The address for a joiner lies in the /24 of the subnet at a host number from 2
/// to 254, no member has it, and for every lower host number from 2 on some member
/// has the address; where there is none for a joiner, members have them all.
pub proof fn law_next_free_address_is_the_lowest_unheld(
    roster: &Roster,
    subnet: Ipv4Addr,
    r: Option<Ipv4Addr>,
    k: Seq<u8>,
    host: u8,
)
    requires
        call_ensures(Roster::next_free_ip, (roster, subnet), r),
    ensures
        r matches Some(ip) ==> ip.a == subnet.a && ip.b == subnet.b && ip.c == subnet.c && 2 <= ip.d <= 254,
        r matches Some(ip) ==> (roster@.members.contains_key(k) ==> roster@.members[k].virtual_ip != ip),
        (match r {
            Some(ip) => host < ip.d,
            None => true,
        }) && 2 <= host <= 254 ==> exists|m: Seq<u8>| #[trigger]
            roster@.members.contains_key(m) && roster@.members[m].virtual_ip == (Ipv4Addr {
                a: subnet.a,
                b: subnet.b,
                c: subnet.c,
                d: host,
            }),
{
    let members = roster@.members;
    let below = match r {
        Some(ip) => host < ip.d,
        None => true,
    };
    if below && 2 <= host <= 254 {
        assert(roster::host_taken(members, subnet, host));
        let m = choose|m: Seq<u8>| #[trigger]
            members.contains_key(m) && members[m].virtual_ip.same_subnet(subnet) && members[m].virtual_ip.d
                == host;
        assert(members.contains_key(m));
    }
}

/// The octets of an address are its four numbers, first to last.
pub proof fn law_octets_are_in_order(ip: Ipv4Addr, r: [u8; 4])
    requires
        call_ensures(Ipv4Addr::octets, (&ip,), r),
    ensures
        r@.len() == 4,
        r@[0] == ip.a,
        r@[1] == ip.b,
        r@[2] == ip.c,
        r@[3] == ip.d,
{
}

/// Packets go to members at their own addresses: what a lookup in the table of a
/// roster gives is a member of the roster with that address, and an address that
/// some member has is always found.
pub proof fn law_packets_go_to_members(
    roster: &Roster,
    table: &RouteTable,
    ip: Ipv4Addr,
    r: Option<Id>,
    k: &Id,
    m: Option<&Member>,
)
    requires
        call_ensures(RouteTable::from_roster, (roster,), *table),
        call_ensures(RouteTable::lookup, (table, &ip), r),
        call_ensures(Roster::member, (roster, k), m),
    ensures
        r matches Some(id) ==> (id@ == k@ ==> m is Some && m->0.virtual_ip == ip),
        m is Some && m->0.virtual_ip == ip ==> r is Some,
        r is None ==> (m is Some ==> m->0.virtual_ip != ip),
{
    law_table_follows_the_roster(roster, *table, ip, k@, 0);
    if let Some(x) = m {
        assert(x@.virtual_ip == x.virtual_ip);
    }
}

/// The size of a table is the number of its addresses; it is empty exactly if that
/// is zero, as it is for the table of nothing, and a copy routes as the table does.
pub proof fn law_size_of_a_table(
    table: &RouteTable,
    n: usize,
    empty: bool,
    blank: RouteTable,
    copy: RouteTable,
    ip: Ipv4Addr,
)
    requires
        call_ensures(RouteTable::len, (table,), n),
        call_ensures(RouteTable::is_empty, (table,), empty),
        call_ensures(RouteTable::default, (), blank),
        call_ensures(RouteTable::clone, (table,), copy),
    ensures
        n == table@.dom().len(),
        empty <==> n == 0,
        empty ==> !table@.contains_key(ip),
        !blank@.contains_key(ip),
        copy@ == table@,
{
    if n == 0 {
        assert(table@.dom() =~= Set::<Ipv4Addr>::empty());
        assert(table@ =~= Map::<Ipv4Addr, Seq<u8>>::empty());
    }
}

/// A new flow table holds no flow.
pub proof fn law_new_tables_hold_nothing(t: Conntrack, k: FlowKey)
    requires
        call_ensures(Conntrack::default, (), t),
    ensures
        !t@.contains_key(k),
{
}

/// An address has the four numbers that it is made of, and as a number it has them
/// in its four bytes, first to last.
pub proof fn law_addresses_keep_their_octets(a: u8, b: u8, c: u8, d: u8, ip: Ipv4Addr, n: u32)
    requires
        call_ensures(Ipv4Addr::new, (a, b, c, d), ip),
        call_ensures(Ipv4Addr::to_bits, (&ip,), n),
    ensures
        ip.a == a,
        ip.b == b,
        ip.c == c,
        ip.d == d,
        n / 0x100_0000 == a,
        n / 0x1_0000 % 0x100 == b,
        n / 0x100 % 0x100 == c,
        n % 0x100 == d,
{
}

} // verus!
