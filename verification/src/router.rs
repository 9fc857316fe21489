//! The data-plane routing primitives: a forwarding table (virtual address to
//! member) derived from the roster, and minimal IPv4 header parsing.
//!
//! The pump that moves packets between the interface and the peers lives
//! outside. These pieces are pure, so they need no real network interface.

use std::collections::HashMap;

use vstd::prelude::*;

use crate::addr;
use crate::addr::Ipv4Addr;
use crate::idmap;
use crate::ids;
use crate::ids::Id;
use crate::roster;
use crate::roster::{MemberModel, Roster};

verus! {

broadcast use vstd::std_specs::hash::group_hash_axioms;

/// Virtual address to member forwarding table, rebuilt whenever the roster
/// changes.
#[derive(Debug)]
pub struct RouteTable {
    by_ip: HashMap<u32, Id>,
}

/// The address with the given number.
pub open spec fn from_bits(n: u32) -> Ipv4Addr {
    Ipv4Addr {
        a: (n / 0x1000000) as u8,
        b: (n / 0x10000 % 0x100) as u8,
        c: (n / 0x100 % 0x100) as u8,
        d: (n % 0x100) as u8,
    }
}

/// Every number is that of an address.
proof fn lemma_from_bits(n: u32)
    ensures
        from_bits(n).bits() == n,
{
}

impl View for RouteTable {
    type V = Map<Ipv4Addr, Seq<u8>>;

    closed spec fn view(&self) -> Map<Ipv4Addr, Seq<u8>> {
        Map::new(
            |ip: Ipv4Addr| self.by_ip@.contains_key(ip.bits()),
            |ip: Ipv4Addr| self.by_ip@[ip.bits()]@,
        )
    }
}

/// Whether `k` is a member with the virtual address `ip`.
pub open spec fn owns(members: Map<Seq<u8>, MemberModel>, ip: Ipv4Addr, k: Seq<u8>) -> bool {
    members.contains_key(k) && members[k].virtual_ip == ip
}

/// Whether a table routes to the members: each address that a member holds to
/// that member, where several hold it to the one with the greatest id, and no
/// other address to anyone.
pub open spec fn routes(t: Map<Ipv4Addr, Seq<u8>>, members: Map<Seq<u8>, MemberModel>) -> bool {
    &&& forall|ip: Ipv4Addr, k: Seq<u8>| #[trigger]
        owns(members, ip, k) ==> t.contains_key(ip) && (k == t[ip] || roster::id_less(k, t[ip]))
    &&& forall|ip: Ipv4Addr| #[trigger] t.contains_key(ip) ==> owns(members, ip, t[ip])
}

impl RouteTable {
    /// Build the table from the current roster's address assignments.
    pub fn from_roster(roster: &Roster) -> (r: RouteTable)
        ensures
            routes(r@, roster@.members),
    {
        let members = roster.members();
        let ghost all = roster@.members;
        let mut by_ip: HashMap<u32, Id> = HashMap::new();
        let mut i: usize = 0;
        while i < members.len()
            invariant
                i <= members@.len(),
                all == roster@.members,
                idmap::keys_ascend(members@),
                idmap::map_of(members@).dom() == all.dom(),
                forall|j: int| 0 <= j < members@.len() ==> all[(#[trigger] members@[j]).0@] == members@[j].1@,
                forall|n: u32| #[trigger]
                    by_ip@.contains_key(n) ==> exists|j: int|
                        0 <= j < i && (#[trigger] members@[j]).0 == by_ip@[n]
                            && members@[j].1.virtual_ip.bits() == n,
                forall|j: int|
                    0 <= j < i ==> by_ip@.contains_key((#[trigger] members@[j]).1.virtual_ip.bits())
                        && ids::rank(members@[j].0@) <= ids::rank(
                        by_ip@[members@[j].1.virtual_ip.bits()]@,
                    ),
            decreases members@.len() - i,
        {
            let ghost before = by_ip@;
            by_ip.insert(members[i].1.virtual_ip.to_bits(), members[i].0);
            proof {
                let n = members@[i as int].1.virtual_ip.bits();
                assert forall|m: u32| #[trigger] by_ip@.contains_key(m) implies exists|j: int|
                    0 <= j < i + 1 && (#[trigger] members@[j]).0 == by_ip@[m]
                        && members@[j].1.virtual_ip.bits() == m by {
                    if m == n {
                        assert(members@[i as int].0 == by_ip@[m]);
                    } else {
                        assert(before.contains_key(m));
                    }
                }
                assert forall|j: int| 0 <= j < i + 1 implies by_ip@.contains_key(
                    (#[trigger] members@[j]).1.virtual_ip.bits(),
                ) && ids::rank(members@[j].0@) <= ids::rank(by_ip@[members@[j].1.virtual_ip.bits()]@) by {
                    if j < i {
                        assert(ids::rank(members@[j].0@) < ids::rank(members@[i as int].0@));
                    }
                }
            }
            i = i + 1;
        }
        let r = RouteTable { by_ip };
        proof {
            assert forall|ip: Ipv4Addr, k: Seq<u8>| #[trigger] owns(all, ip, k) implies r@.contains_key(ip)
                && (k == r@[ip] || roster::id_less(k, r@[ip])) by {
                assert(idmap::map_of(members@).dom().contains(k));
                let j = choose|j: int| idmap::key_at(members@, j, k);
                assert(all[members@[j].0@] == members@[j].1@);
                assert(by_ip@.contains_key(ip.bits()));
                if ids::rank(k) == ids::rank(r@[ip]) {
                    ids::lemma_rank_injective(k, r@[ip]);
                }
            }
            assert forall|ip: Ipv4Addr| #[trigger] r@.contains_key(ip) implies owns(all, ip, r@[ip]) by {
                let j = choose|j: int|
                    0 <= j < i && (#[trigger] members@[j]).0 == by_ip@[ip.bits()]
                        && members@[j].1.virtual_ip.bits() == ip.bits();
                addr::lemma_bits_injective(members@[j].1.virtual_ip, ip);
                idmap::lemma_map_of_at(members@, j);
                assert(all.dom().contains(members@[j].0@));
            }
        }
        r
    }

    /// Which member owns `ip`, if any.
    pub fn lookup(&self, ip: &Ipv4Addr) -> (r: Option<Id>)
        ensures
            match r {
                Some(id) => self@.contains_key(*ip) && id@ == self@[*ip],
                None => !self@.contains_key(*ip),
            },
    {
        let n: u32 = ip.to_bits();
        match self.by_ip.get(&n) {
            Some(id) => Some(*id),
            None => None,
        }
    }

    /// How many addresses are routed.
    pub fn len(&self) -> (r: usize)
        ensures
            self@.dom().finite(),
            r == self@.len(),
    {
        proof {
            let f = |n: u32| from_bits(n);
            let nums = self.by_ip@.dom();
            assert forall|ip: Ipv4Addr| self@.dom().contains(ip) <==> nums.map(f).contains(ip) by {
                if self@.dom().contains(ip) {
                    lemma_from_bits(ip.bits());
                    addr::lemma_bits_injective(from_bits(ip.bits()), ip);
                    assert(nums.contains(ip.bits()) && f(ip.bits()) == ip);
                }
                if nums.map(f).contains(ip) {
                    let n = choose|n: u32| nums.contains(n) && f(n) == ip;
                    lemma_from_bits(n);
                }
            }
            assert(self@.dom() =~= nums.map(f));
            assert forall|m: u32, n: u32|
                nums.contains(m) && nums.contains(n) && #[trigger] f(m) == #[trigger] f(n) implies m == n by {
                lemma_from_bits(m);
                lemma_from_bits(n);
            }
            assert(vstd::relations::injective_on(f, nums));
            vstd::set_lib::lemma_map_size(nums, nums.map(f), f);
            nums.lemma_map_finite(f);
        }
        self.by_ip.len()
    }

    /// Whether no address is routed.
    pub fn is_empty(&self) -> (r: bool)
        ensures
            r == (self@ == Map::<Ipv4Addr, Seq<u8>>::empty()),
    {
        let n: usize = self.len();
        proof {
            if n == 0 {
                assert(self@.dom() =~= Set::<Ipv4Addr>::empty());
                assert(self@ =~= Map::<Ipv4Addr, Seq<u8>>::empty());
            }
        }
        n == 0
    }
}

impl Default for RouteTable {
    /// A table that routes nothing.
    fn default() -> (r: RouteTable)
        ensures
            r@ == Map::<Ipv4Addr, Seq<u8>>::empty(),
    {
        let r = RouteTable { by_ip: HashMap::new() };
        assert(r@ =~= Map::<Ipv4Addr, Seq<u8>>::empty());
        r
    }
}

impl Clone for RouteTable {
    fn clone(&self) -> (r: RouteTable)
        ensures
            r@ == self@,
    {
        let r = RouteTable { by_ip: self.by_ip.clone() };
        assert(r@ =~= self@);
        r
    }
}

// ---------------------------------------------------------------------------
// Packets
// ---------------------------------------------------------------------------

/// Whether a packet is IPv4 and holds at least the fixed part of the header.
pub open spec fn is_ipv4(p: Seq<u8>) -> bool {
    p.len() >= 20 && p[0] / 16 == 4
}

/// The address in the four bytes at `i`.
pub open spec fn addr_at(p: Seq<u8>, i: int) -> Ipv4Addr {
    Ipv4Addr { a: p[i], b: p[i + 1], c: p[i + 2], d: p[i + 3] }
}

/// Whether a packet is IPv4 and holds at least the fixed part of the header.
fn has_ipv4_header(pkt: &[u8]) -> (r: bool)
    ensures
        r == is_ipv4(pkt@),
{
    if pkt.len() < 20 {
        return false;
    }
    let first: u8 = pkt[0];
    assert(first >> 4 == first / 16) by (bit_vector);
    (first >> 4) == 4
}

/// Destination IPv4 address of a raw IP packet, or `None` if it isn't IPv4 or is
/// too short. (Only IPv4 is routed in the virtual /24; IPv6 packets are dropped.)
pub fn dst_ipv4(pkt: &[u8]) -> (r: Option<Ipv4Addr>)
    ensures
        r == if is_ipv4(pkt@) {
            Some(addr_at(pkt@, 16))
        } else {
            None
        },
{
    if !has_ipv4_header(pkt) {
        return None;
    }
    Some(Ipv4Addr::new(pkt[16], pkt[17], pkt[18], pkt[19]))
}

/// Source IPv4 address of a raw IP packet (used to sanity-check inbound packets).
pub fn src_ipv4(pkt: &[u8]) -> (r: Option<Ipv4Addr>)
    ensures
        r == if is_ipv4(pkt@) {
            Some(addr_at(pkt@, 12))
        } else {
            None
        },
{
    if !has_ipv4_header(pkt) {
        return None;
    }
    Some(Ipv4Addr::new(pkt[12], pkt[13], pkt[14], pkt[15]))
}

/// A transport flow, as seen from its sender.
#[derive(Clone, Copy, PartialEq, Eq, Structural, Debug, Hash)]
pub struct FlowKey {
    pub src: Ipv4Addr,
    pub dst: Ipv4Addr,
    /// The IP protocol number.
    pub proto: u8,
    /// The ports; zero for protocols without ports.
    pub sport: u16,
    pub dport: u16,
}

impl FlowKey {
    /// The flow as seen from its receiver.
    pub open spec fn flipped(self) -> FlowKey {
        FlowKey {
            src: self.dst,
            dst: self.src,
            proto: self.proto,
            sport: self.dport,
            dport: self.sport,
        }
    }

    /// The flow as seen from its receiver: the key of the return traffic.
    pub fn reversed(&self) -> (r: FlowKey)
        ensures
            r == self.flipped(),
    {
        FlowKey {
            src: self.dst,
            dst: self.src,
            proto: self.proto,
            sport: self.dport,
            dport: self.sport,
        }
    }
}

/// Where the payload of an IPv4 packet begins: the header length in its first
/// byte counts words of four bytes.
pub open spec fn header_len(p: Seq<u8>) -> int {
    p[0] % 16 * 4
}

/// The big-endian number in the two bytes at `i`.
pub open spec fn port_at(p: Seq<u8>, i: int) -> u16 {
    (p[i] * 256 + p[i + 1]) as u16
}

/// Whether a protocol has ports: TCP and UDP.
pub open spec fn has_ports(proto: u8) -> bool {
    proto == 6 || proto == 17
}

/// The flow of a packet: none if it isn't IPv4, if its header is shorter than
/// the fixed part, or if the ports of its protocol are cut off.
pub open spec fn flow_of(p: Seq<u8>) -> Option<FlowKey> {
    if !is_ipv4(p) || header_len(p) < 20 || (has_ports(p[9]) && p.len() < header_len(p) + 4) {
        None
    } else {
        Some(
            FlowKey {
                src: addr_at(p, 12),
                dst: addr_at(p, 16),
                proto: p[9],
                sport: if has_ports(p[9]) {
                    port_at(p, header_len(p))
                } else {
                    0
                },
                dport: if has_ports(p[9]) {
                    port_at(p, header_len(p) + 2)
                } else {
                    0
                },
            },
        )
    }
}

/// Whether a packet opens a TCP connection: it is TCP, its flags are there, and
/// of these SYN is set and ACK is clear.
pub open spec fn opens_tcp(p: Seq<u8>) -> bool {
    &&& is_ipv4(p)
    &&& header_len(p) >= 20
    &&& p[9] == 6
    &&& p.len() > header_len(p) + 13
    &&& p[header_len(p) + 13] / 2 % 2 == 1
    &&& p[header_len(p) + 13] / 16 % 2 == 0
}

/// The payload offset in the first byte of a header.
fn header_bytes(first: u8) -> (r: usize)
    ensures
        r == first % 16 * 4,
{
    assert(first & 0x0f == first % 16) by (bit_vector);
    (first & 0x0f) as usize * 4
}

/// The flow that a raw IP packet belongs to.
pub fn flow_key(pkt: &[u8]) -> (r: Option<FlowKey>)
    ensures
        r == flow_of(pkt@),
{
    if !has_ipv4_header(pkt) {
        return None;
    }
    let ihl: usize = header_bytes(pkt[0]);
    if ihl < 20 {
        return None;
    }
    let proto: u8 = pkt[9];
    let mut sport: u16 = 0;
    let mut dport: u16 = 0;
    if proto == 6 || proto == 17 {
        if pkt.len() < ihl + 4 {
            return None;
        }
        sport = pkt[ihl] as u16 * 256 + pkt[ihl + 1] as u16;
        dport = pkt[ihl + 2] as u16 * 256 + pkt[ihl + 3] as u16;
    }
    Some(
        FlowKey {
            src: Ipv4Addr::new(pkt[12], pkt[13], pkt[14], pkt[15]),
            dst: Ipv4Addr::new(pkt[16], pkt[17], pkt[18], pkt[19]),
            proto,
            sport,
            dport,
        },
    )
}

/// Whether a raw IP packet opens a TCP connection (SYN without ACK).
pub fn is_tcp_initiation(pkt: &[u8]) -> (r: bool)
    ensures
        r == opens_tcp(pkt@),
{
    if !has_ipv4_header(pkt) {
        return false;
    }
    let ihl: usize = header_bytes(pkt[0]);
    if ihl < 20 || pkt[9] != 6 || pkt.len() <= ihl + 13 {
        return false;
    }
    let flags: u8 = pkt[ihl + 13];
    assert((flags & 0x02 != 0) == (flags / 2 % 2 == 1)) by (bit_vector);
    assert((flags & 0x10 == 0) == (flags / 16 % 2 == 0)) by (bit_vector);
    flags & 0x02 != 0 && flags & 0x10 == 0
}

// ---------------------------------------------------------------------------
// Laws
// ---------------------------------------------------------------------------

/// Packets are only ever routed to current members: a device that is not on the
/// roster, such as one that was removed, is not the target of any address.
pub proof fn law_routes_lead_to_members(
    t: Map<Ipv4Addr, Seq<u8>>,
    members: Map<Seq<u8>, MemberModel>,
    ip: Ipv4Addr,
)
    requires
        routes(t, members),
        t.contains_key(ip),
    ensures
        members.contains_key(t[ip]),
        members[t[ip]].virtual_ip == ip,
{
}

/// A member whose address nobody else holds can be reached at it.
pub proof fn law_members_are_reachable(
    t: Map<Ipv4Addr, Seq<u8>>,
    members: Map<Seq<u8>, MemberModel>,
    k: Seq<u8>,
)
    requires
        routes(t, members),
        members.contains_key(k),
        forall|j: Seq<u8>| #[trigger]
            owns(members, members[k].virtual_ip, j) ==> j == k,
    ensures
        t.contains_key(members[k].virtual_ip),
        t[members[k].virtual_ip] == k,
{
    assert(owns(members, members[k].virtual_ip, k));
    assert(owns(members, members[k].virtual_ip, t[members[k].virtual_ip]));
}

/// The roster determines the table.
pub proof fn law_routes_are_determined(
    t: Map<Ipv4Addr, Seq<u8>>,
    u: Map<Ipv4Addr, Seq<u8>>,
    members: Map<Seq<u8>, MemberModel>,
)
    requires
        routes(t, members),
        routes(u, members),
    ensures
        t == u,
{
    assert forall|ip: Ipv4Addr| t.contains_key(ip) implies u.contains_key(ip) && u[ip] == t[ip] by {
        assert(owns(members, ip, t[ip]));
        assert(owns(members, ip, u[ip]));
    }
    assert forall|ip: Ipv4Addr| u.contains_key(ip) implies t.contains_key(ip) by {
        assert(owns(members, ip, u[ip]));
    }
    assert(t =~= u);
}

/// An address whose host number no member holds is not routed to anyone, so it
/// can be handed to a joiner.
pub proof fn law_free_address_is_unrouted(
    t: Map<Ipv4Addr, Seq<u8>>,
    members: Map<Seq<u8>, MemberModel>,
    ip: Ipv4Addr,
)
    requires
        routes(t, members),
        !roster::host_taken(members, ip, ip.d),
    ensures
        !t.contains_key(ip),
{
    if t.contains_key(ip) {
        assert(owns(members, ip, t[ip]));
        assert(members.contains_key(t[ip]));
    }
}

/// The return traffic of the return traffic is the flow itself.
pub proof fn law_reversal_undoes_itself(k: FlowKey)
    ensures
        k.flipped().flipped() == k,
{
}

} // verus!
