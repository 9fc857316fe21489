use ipn::addr::Ipv4Addr;
use ipn::crypto::SigningKey;
use ipn::entry::{sign, Entry, Op};
use ipn::membership::{build_roster, is_entry_key, load_entries, publish_entry, Content, Record};
use ipn::roster::Config;

fn genesis() -> (Config, Entry) {
    let om = SigningKey::from_bytes(&[1; 32]);
    let cfg = Config { network_id: [9; 32], originator_id: om.verifying_key() };
    let op = Op::Add {
        node_id: [2; 32],
        hostname: "pc".to_string(),
        virtual_ip: Ipv4Addr::new(10, 99, 0, 2),
        ts: 1,
    };
    let e = sign([9; 32], &om, op);
    (cfg, e)
}

#[test]
fn entries_are_published_under_their_content_address() {
    let (_cfg, e) = genesis();
    let p = publish_entry(&e);
    let mut key = b"e/".to_vec();
    key.extend_from_slice(&e.id());
    assert_eq!(p.key, key);
    assert_eq!(p.value, e.to_bytes());
    assert!(is_entry_key(&p.key));
}

#[test]
fn republishing_sets_the_same_key_and_value() {
    let (_cfg, e) = genesis();
    let (p, q) = (publish_entry(&e), publish_entry(&e.clone()));
    assert_eq!(p.key, q.key);
    assert_eq!(p.value, q.value);
    let mut other = e.clone();
    other.op = Op::Freeze { frozen: true, ts: 5 };
    assert_ne!(publish_entry(&other).key, p.key);
}

#[test]
fn entry_keys_have_the_prefix() {
    assert!(is_entry_key(b"e/"));
    assert!(is_entry_key(b"e/abc"));
    assert!(!is_entry_key(b"e"));
    assert!(!is_entry_key(b""));
    assert!(!is_entry_key(b"f/abc"));
    assert!(!is_entry_key(b"ee/"));
}

#[test]
fn foreign_missing_and_malformed_records_are_skipped() {
    let (cfg, e) = genesis();
    let key = publish_entry(&e).key;
    let records = || {
        vec![
            Record { key: b"x/other".to_vec(), content: Content::Parsed(genesis().1) },
            Record { key: key.clone(), content: Content::Missing },
            Record { key: key.clone(), content: Content::Malformed },
            Record { key: key.clone(), content: Content::Parsed(genesis().1) },
        ]
    };
    let loaded = load_entries(records());
    assert_eq!(loaded.len(), 1);
    assert_eq!(loaded[0].id(), e.id());
    let r = build_roster(&cfg, records());
    assert_eq!(r.len(), 1);
    assert!(r.is_member(&[2; 32]));
    assert!(build_roster(&cfg, vec![]).is_empty());
}
