use ipn::addr::Ipv4Addr;
use ipn::conntrack::{Conntrack, FLOW_TTL_MS};

const SYN: u8 = 0x02;
const ACK: u8 = 0x10;

/// IPv4 TCP packet (full 20-byte TCP header so the flags byte is present).
fn tcp(src: Ipv4Addr, dst: Ipv4Addr, sport: u16, dport: u16, flags: u8) -> Vec<u8> {
    let mut p = vec![0u8; 40]; // 20 IP + 20 TCP
    p[0] = 0x45; // v4, IHL 5
    p[9] = 6; // TCP
    p[12..16].copy_from_slice(&src.octets());
    p[16..20].copy_from_slice(&dst.octets());
    p[20..22].copy_from_slice(&sport.to_be_bytes());
    p[22..24].copy_from_slice(&dport.to_be_bytes());
    p[33] = flags; // TCP flags at ihl(20) + 13
    p
}

fn udp(src: Ipv4Addr, dst: Ipv4Addr, sport: u16, dport: u16) -> Vec<u8> {
    let mut p = tcp(src, dst, sport, dport, 0);
    p[9] = 17;
    p
}

#[test]
fn return_traffic_allowed_unsolicited_dropped() {
    let me = Ipv4Addr::new(10, 99, 0, 2);
    let peer = Ipv4Addr::new(10, 99, 0, 5);
    let mut ct = Conntrack::default();

    // We initiate me:51000 -> peer:22 (client SYN) -> flow created.
    ct.record_outbound(&tcp(me, peer, 51000, 22, SYN), 1000);

    // Peer's reply (peer:22 -> me:51000) is allowed.
    assert!(ct.allows_inbound(&tcp(peer, me, 22, 51000, ACK), 1001));

    // An unsolicited inbound (peer:40000 -> me:3389) is dropped.
    assert!(!ct.allows_inbound(&tcp(peer, me, 40000, 3389, SYN), 1001));
}

#[test]
fn server_response_does_not_open_a_flow() {
    // A connection INBOUND to one of our services never becomes "established" in
    // the table, because our server's replies (SYN-ACK / ACK, no client SYN) don't
    // create a flow. So enabling the block cuts an already-open inbound session.
    let me = Ipv4Addr::new(10, 99, 0, 2);
    let peer = Ipv4Addr::new(10, 99, 0, 5);
    let mut ct = Conntrack::default();
    ct.record_outbound(&tcp(me, peer, 3389, 50000, SYN | ACK), 1000);
    ct.record_outbound(&tcp(me, peer, 3389, 50000, ACK), 1001);
    assert!(!ct.allows_inbound(&tcp(peer, me, 50000, 3389, ACK), 1002));
}

#[test]
fn our_outbound_session_stays_alive() {
    // A session WE initiated keeps working across the TTL because our ongoing
    // (non-SYN) outbound traffic refreshes the flow.
    let me = Ipv4Addr::new(10, 99, 0, 2);
    let peer = Ipv4Addr::new(10, 99, 0, 5);
    let mut ct = Conntrack::default();
    ct.record_outbound(&tcp(me, peer, 51000, 22, SYN), 1000);
    ct.record_outbound(&tcp(me, peer, 51000, 22, ACK), 1000 + 100_000); // refresh
    assert!(ct.allows_inbound(&tcp(peer, me, 22, 51000, ACK), 1000 + 150_000));
}

#[test]
fn expired_flow_is_not_matched() {
    let me = Ipv4Addr::new(10, 99, 0, 2);
    let peer = Ipv4Addr::new(10, 99, 0, 5);
    let mut ct = Conntrack::default();
    ct.record_outbound(&tcp(me, peer, 51000, 22, SYN), 1000);
    // Past the TTL with no refresh, the reply no longer matches.
    assert!(!ct.allows_inbound(&tcp(peer, me, 22, 51000, ACK), 1000 + FLOW_TTL_MS + 1));
}

#[test]
fn lifetime_is_exact_and_clocks_may_step_back() {
    let me = Ipv4Addr::new(10, 99, 0, 2);
    let peer = Ipv4Addr::new(10, 99, 0, 5);
    let reply = tcp(peer, me, 22, 51000, ACK);
    let mut ct = Conntrack::default();
    ct.record_outbound(&tcp(me, peer, 51000, 22, SYN), 1000);
    assert_eq!(FLOW_TTL_MS, 120_000);
    assert!(ct.allows_inbound(&reply, 121_000));
    assert!(!ct.allows_inbound(&reply, 121_001));
    assert!(ct.allows_inbound(&reply, 0));
}

#[test]
fn first_udp_packet_opens_a_flow() {
    let me = Ipv4Addr::new(10, 99, 0, 2);
    let peer = Ipv4Addr::new(10, 99, 0, 5);
    let mut ct = Conntrack::default();
    assert!(!ct.allows_inbound(&udp(peer, me, 53, 5000), 10));
    ct.record_outbound(&udp(me, peer, 5000, 53), 10);
    assert!(ct.allows_inbound(&udp(peer, me, 53, 5000), 10));
    // The same ports over TCP are another flow.
    assert!(!ct.allows_inbound(&tcp(peer, me, 53, 5000, ACK), 10));
}

#[test]
fn sweep_drops_only_stale_flows() {
    let me = Ipv4Addr::new(10, 99, 0, 2);
    let peer = Ipv4Addr::new(10, 99, 0, 5);
    let mut ct = Conntrack::default();
    ct.record_outbound(&tcp(me, peer, 51000, 22, SYN), 1000);
    ct.record_outbound(&tcp(me, peer, 51001, 22, SYN), 50_000);
    ct.record_outbound(&udp(me, peer, 5000, 53), 2000);
    ct.sweep(125_000);
    // The stale ones are gone, even for an earlier time; the live one stays.
    assert!(!ct.allows_inbound(&tcp(peer, me, 22, 51000, ACK), 1000));
    assert!(!ct.allows_inbound(&udp(peer, me, 53, 5000), 2000));
    assert!(ct.allows_inbound(&tcp(peer, me, 22, 51001, ACK), 125_000));
    // A swept TCP flow is not refreshed back into the table.
    ct.record_outbound(&tcp(me, peer, 51000, 22, ACK), 125_001);
    assert!(!ct.allows_inbound(&tcp(peer, me, 22, 51000, ACK), 125_001));
}

#[test]
fn clear_forgets_everything() {
    let me = Ipv4Addr::new(10, 99, 0, 2);
    let peer = Ipv4Addr::new(10, 99, 0, 5);
    let mut ct = Conntrack::default();
    ct.record_outbound(&tcp(me, peer, 51000, 22, SYN), 1000);
    ct.clear();
    assert!(!ct.allows_inbound(&tcp(peer, me, 22, 51000, ACK), 1000));
}

#[test]
fn packets_without_a_flow_are_ignored_and_dropped() {
    let mut ct = Conntrack::default();
    ct.record_outbound(&[0x60; 40], 1);
    ct.record_outbound(&[], 1);
    assert!(!ct.allows_inbound(&[0x60; 40], 1));
    assert!(!ct.allows_inbound(&[], 1));
}

#[test]
fn only_opened_flows_are_admitted_across_sweeps_and_clears() {
    let me = Ipv4Addr::new(10, 99, 0, 2);
    let peer = Ipv4Addr::new(10, 99, 0, 5);
    let reply = tcp(peer, me, 22, 51000, ACK);
    let mut ct = Conntrack::default();
    // Opened, refreshed and swept in time: stays open.
    ct.record_outbound(&tcp(me, peer, 51000, 22, SYN), 1000);
    ct.sweep(100_000);
    ct.record_outbound(&tcp(me, peer, 51000, 22, ACK), 110_000);
    ct.sweep(200_000);
    assert!(ct.allows_inbound(&reply, 230_000));
    // Cleared: traffic without a SYN does not bring it back, a SYN does.
    ct.clear();
    ct.record_outbound(&tcp(me, peer, 51000, 22, ACK), 231_000);
    ct.sweep(231_000);
    assert!(!ct.allows_inbound(&reply, 231_000));
    ct.record_outbound(&tcp(me, peer, 51000, 22, SYN), 232_000);
    assert!(ct.allows_inbound(&reply, 232_000));
}
