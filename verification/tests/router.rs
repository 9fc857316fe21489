use ipn::addr::Ipv4Addr;
use ipn::crypto::SigningKey;
use ipn::entry::{sign, Op};
use ipn::roster::{Config, Roster};
use ipn::router::{dst_ipv4, flow_key, is_tcp_initiation, src_ipv4, FlowKey, RouteTable};

fn ipv4_packet(src: Ipv4Addr, dst: Ipv4Addr) -> Vec<u8> {
    let mut p = vec![0u8; 20];
    p[0] = 0x45; // version 4, IHL 5
    p[12..16].copy_from_slice(&src.octets());
    p[16..20].copy_from_slice(&dst.octets());
    p
}

#[test]
fn parses_ipv4_addresses() {
    let p = ipv4_packet(Ipv4Addr::new(10, 99, 0, 2), Ipv4Addr::new(10, 99, 0, 7));
    assert_eq!(dst_ipv4(&p), Some(Ipv4Addr::new(10, 99, 0, 7)));
    assert_eq!(src_ipv4(&p), Some(Ipv4Addr::new(10, 99, 0, 2)));
}

#[test]
fn rejects_non_ipv4_and_short() {
    let unspecified = Ipv4Addr::new(0, 0, 0, 0);
    let mut p = ipv4_packet(unspecified, unspecified);
    p[0] = 0x60; // IPv6
    assert_eq!(dst_ipv4(&p), None);
    assert_eq!(dst_ipv4(&[0u8; 4]), None);
    assert_eq!(src_ipv4(&p), None);
    assert_eq!(src_ipv4(&[0x45u8; 19]), None);
}

#[test]
fn route_table_maps_members_to_node_ids() {
    let om = SigningKey::from_bytes(&[1u8; 32]);
    let devo = SigningKey::from_bytes(&[2u8; 32]);
    let net = [9u8; 32];
    let cfg = Config { network_id: net, originator_id: om.verifying_key() };
    let entries = vec![sign(
        net,
        &om,
        Op::Add {
            node_id: devo.verifying_key(),
            hostname: "o".into(),
            virtual_ip: Ipv4Addr::new(10, 99, 0, 2),
            ts: 1,
        },
    )];
    let roster = Roster::build(&cfg, &entries);
    let table = RouteTable::from_roster(&roster);
    assert_eq!(table.lookup(&Ipv4Addr::new(10, 99, 0, 2)), Some(devo.verifying_key()));
    assert_eq!(table.lookup(&Ipv4Addr::new(10, 99, 0, 9)), None);
}

fn roster_of(members: &[([u8; 32], u8)]) -> Roster {
    let om = SigningKey::from_bytes(&[1u8; 32]);
    let net = [9u8; 32];
    let cfg = Config { network_id: net, originator_id: om.verifying_key() };
    let mut entries = Vec::new();
    for (i, (node, last)) in members.iter().enumerate() {
        let op = Op::Add {
            node_id: *node,
            hostname: "m".to_string(),
            virtual_ip: Ipv4Addr::new(10, 99, 0, *last),
            ts: i as u64,
        };
        entries.push(sign(net, &om, op));
    }
    Roster::build(&cfg, &entries)
}

#[test]
fn shared_address_goes_to_the_greatest_id() {
    let table = RouteTable::from_roster(&roster_of(&[([9; 32], 4), ([3; 32], 4), ([5; 32], 6)]));
    assert_eq!(table.len(), 2);
    assert!(!table.is_empty());
    assert_eq!(table.lookup(&Ipv4Addr::new(10, 99, 0, 4)), Some([9; 32]));
    assert_eq!(table.lookup(&Ipv4Addr::new(10, 99, 0, 6)), Some([5; 32]));
    let copy = table.clone();
    assert_eq!(copy.lookup(&Ipv4Addr::new(10, 99, 0, 4)), Some([9; 32]));
}

#[test]
fn free_address_is_unrouted() {
    let roster = roster_of(&[([9; 32], 2), ([3; 32], 3)]);
    let free = roster.next_free_ip(Ipv4Addr::new(10, 99, 0, 0)).unwrap();
    assert_eq!(free, Ipv4Addr::new(10, 99, 0, 4));
    assert_eq!(RouteTable::from_roster(&roster).lookup(&free), None);
}

#[test]
fn empty_roster_routes_nothing() {
    let table = RouteTable::from_roster(&Roster::default());
    assert!(table.is_empty());
    assert_eq!(table.len(), 0);
    assert!(RouteTable::default().is_empty());
}

fn transport(proto: u8, ihl_words: u8, sport: u16, dport: u16, flags: u8) -> Vec<u8> {
    let mut p = ipv4_packet(Ipv4Addr::new(10, 99, 0, 2), Ipv4Addr::new(10, 99, 0, 5));
    let ihl = ihl_words as usize * 4;
    p.resize(ihl + 20, 0);
    p[0] = 0x40 + ihl_words;
    p[9] = proto;
    p[ihl..ihl + 2].copy_from_slice(&sport.to_be_bytes());
    p[ihl + 2..ihl + 4].copy_from_slice(&dport.to_be_bytes());
    p[ihl + 13] = flags;
    p
}

#[test]
fn flow_of_a_packet() {
    let k = FlowKey {
        src: Ipv4Addr::new(10, 99, 0, 2),
        dst: Ipv4Addr::new(10, 99, 0, 5),
        proto: 17,
        sport: 51000,
        dport: 53,
    };
    assert_eq!(flow_key(&transport(17, 5, 51000, 53, 0)), Some(k));
    // Options move the ports.
    assert_eq!(flow_key(&transport(17, 6, 51000, 53, 0)), Some(k));
    // ICMP has no ports.
    let icmp = flow_key(&transport(1, 5, 51000, 53, 0)).unwrap();
    assert_eq!((icmp.proto, icmp.sport, icmp.dport), (1, 0, 0));
    assert_eq!(k.reversed().src, k.dst);
    assert_eq!(k.reversed().sport, 53);
    assert_eq!(k.reversed().reversed(), k);
}

#[test]
fn packets_without_a_flow() {
    assert_eq!(flow_key(&[]), None);
    // Ports cut off.
    assert_eq!(flow_key(&transport(6, 5, 1, 2, 0)[..23]), None);
    // A header length below the fixed part.
    let mut short = transport(6, 5, 1, 2, 0);
    short[0] = 0x44;
    assert_eq!(flow_key(&short), None);
    assert!(!is_tcp_initiation(&short));
    let mut six = transport(6, 5, 1, 2, 2);
    six[0] = 0x65;
    assert_eq!(flow_key(&six), None);
    assert!(!is_tcp_initiation(&six));
}

#[test]
fn tcp_initiation_is_syn_without_ack() {
    assert!(is_tcp_initiation(&transport(6, 5, 1, 2, 0x02)));
    assert!(is_tcp_initiation(&transport(6, 6, 1, 2, 0xc2)));
    assert!(!is_tcp_initiation(&transport(6, 5, 1, 2, 0x12)));
    assert!(!is_tcp_initiation(&transport(6, 5, 1, 2, 0x10)));
    assert!(!is_tcp_initiation(&transport(17, 5, 1, 2, 0x02)));
    assert!(!is_tcp_initiation(&transport(6, 5, 1, 2, 0x02)[..33]));
}
