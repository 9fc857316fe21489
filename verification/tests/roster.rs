use ed25519_dalek::Signer;
use ipn::addr::Ipv4Addr;
use ipn::crypto::SigningKey;
use ipn::entry::{sign, signing_bytes, Entry, Op};
use ipn::ids::Id;
use ipn::roster::{Config, Roster, Vetted};

fn key(seed: u8) -> SigningKey {
    SigningKey::from_bytes(&[seed; 32])
}

fn id(k: &SigningKey) -> Id {
    k.verifying_key()
}

fn ip(last: u8) -> Ipv4Addr {
    Ipv4Addr::new(10, 99, 0, last)
}

fn add(node: &SigningKey, hostname: &str, last: u8, ts: u64) -> Op {
    Op::Add { node_id: id(node), hostname: hostname.to_string(), virtual_ip: ip(last), ts }
}

/// Originator master key `om`, and the originator's device `devo`, bootstrapped
/// by the master key as the genesis member.
fn setup() -> (Config, SigningKey, SigningKey, Vec<Entry>) {
    let om = key(1);
    let devo = key(2);
    let net = [9u8; 32];
    let cfg = Config { network_id: net, originator_id: id(&om) };
    let genesis = sign(net, &om, add(&devo, "originator-pc", 2, 1));
    (cfg, om, devo, vec![genesis])
}

#[test]
fn genesis_member_is_admitted() {
    let (cfg, _om, devo, entries) = setup();
    let r = Roster::build(&cfg, &entries);
    assert!(r.is_member(&id(&devo)));
    assert_eq!(r.len(), 1);
    assert_eq!(r.member(&id(&devo)).unwrap().hostname, "originator-pc");
}

#[test]
fn web_of_trust_member_can_admit_member() {
    let (cfg, _om, devo, mut entries) = setup();
    let laptop = key(3);
    // The originator's device (a member) vouches for the laptop.
    entries.push(sign(
        cfg.network_id,
        &devo,
        Op::Add { node_id: id(&laptop), hostname: "laptop".into(), virtual_ip: ip(3), ts: 2 },
    ));
    let r = Roster::build(&cfg, &entries);
    assert!(r.is_member(&id(&laptop)));
    assert_eq!(r.member(&id(&laptop)).unwrap().added_by, id(&devo));
}

#[test]
fn non_member_cannot_admit() {
    let (cfg, _om, _devo, mut entries) = setup();
    let stranger = key(50); // not a member, not the originator
    let victim = key(51);
    entries.push(sign(
        cfg.network_id,
        &stranger,
        Op::Add { node_id: id(&victim), hostname: "evil".into(), virtual_ip: ip(9), ts: 2 },
    ));
    let r = Roster::build(&cfg, &entries);
    assert!(!r.is_member(&id(&victim)));
    assert!(!r.is_member(&id(&stranger)));
}

#[test]
fn only_originator_removes() {
    let (cfg, om, devo, mut entries) = setup();
    let laptop = key(3);
    entries.push(sign(
        cfg.network_id,
        &devo,
        Op::Add { node_id: id(&laptop), hostname: "laptop".into(), virtual_ip: ip(3), ts: 2 },
    ));
    // A non-originator member tries to remove the laptop -> ignored.
    entries.push(sign(cfg.network_id, &devo, Op::Remove { node_id: id(&laptop), ts: 3 }));
    assert!(Roster::build(&cfg, &entries).is_member(&id(&laptop)));

    // The originator master key removes it -> gone.
    entries.push(sign(cfg.network_id, &om, Op::Remove { node_id: id(&laptop), ts: 4 }));
    assert!(!Roster::build(&cfg, &entries).is_member(&id(&laptop)));
}

#[test]
fn removed_member_cannot_forge() {
    // Even though a removed member still holds the write capability, their later
    // adds are rejected and they can't sign Remove or Freeze.
    let (cfg, om, devo, mut entries) = setup();
    let laptop = key(3);
    let attacker_target = key(60);
    entries.push(sign(
        cfg.network_id,
        &devo,
        Op::Add { node_id: id(&laptop), hostname: "laptop".into(), virtual_ip: ip(3), ts: 2 },
    ));
    // Originator removes the laptop at ts=3.
    entries.push(sign(cfg.network_id, &om, Op::Remove { node_id: id(&laptop), ts: 3 }));
    // The removed laptop tries to (a) admit a new member and (b) freeze and
    // remove the originator's device, all at later timestamps.
    entries.push(sign(
        cfg.network_id,
        &laptop,
        Op::Add {
            node_id: id(&attacker_target),
            hostname: "backdoor".into(),
            virtual_ip: ip(7),
            ts: 4,
        },
    ));
    entries.push(sign(cfg.network_id, &laptop, Op::Remove { node_id: id(&devo), ts: 5 }));
    entries.push(sign(cfg.network_id, &laptop, Op::Freeze { frozen: true, ts: 6 }));
    let r = Roster::build(&cfg, &entries);
    assert!(!r.is_member(&id(&laptop)), "removed member stays out");
    assert!(!r.is_member(&id(&attacker_target)), "forged add rejected");
    assert!(r.is_member(&id(&devo)), "forged remove ignored");
    assert!(!r.frozen(), "forged freeze ignored");
}

#[test]
fn freeze_blocks_adds_until_unfrozen() {
    let (cfg, om, devo, base) = setup();
    let q = key(4);

    // Frozen at ts=3, then an add at ts=4 -> rejected.
    let mut frozen = base.clone();
    frozen.push(sign(cfg.network_id, &om, Op::Freeze { frozen: true, ts: 3 }));
    frozen.push(sign(
        cfg.network_id,
        &devo,
        Op::Add { node_id: id(&q), hostname: "q".into(), virtual_ip: ip(4), ts: 4 },
    ));
    let r = Roster::build(&cfg, &frozen);
    assert!(r.frozen());
    assert!(!r.is_member(&id(&q)), "add blocked while frozen");

    // Unfreeze at ts=5, re-add at ts=6 -> accepted.
    let mut thawed = frozen.clone();
    thawed.push(sign(cfg.network_id, &om, Op::Freeze { frozen: false, ts: 5 }));
    thawed.push(sign(
        cfg.network_id,
        &devo,
        Op::Add { node_id: id(&q), hostname: "q".into(), virtual_ip: ip(4), ts: 6 },
    ));
    let r = Roster::build(&cfg, &thawed);
    assert!(!r.frozen());
    assert!(r.is_member(&id(&q)), "add allowed after unfreeze");
}

#[test]
fn tampered_signature_is_dropped() {
    let (cfg, _om, devo, _entries) = setup();
    let mut bad = sign(
        cfg.network_id,
        &devo,
        Op::Add { node_id: id(&key(3)), hostname: "x".into(), virtual_ip: ip(3), ts: 2 },
    );
    bad.signature[0] ^= 0xff; // corrupt
    assert!(!bad.verify_signature());
    let r = Roster::build(&cfg, std::slice::from_ref(&bad));
    assert!(r.is_empty());
}

#[test]
fn wrong_network_id_is_dropped() {
    let (cfg, om, devo, _e) = setup();
    // Genesis signed for a DIFFERENT network must not count here.
    let foreign = sign(
        [7u8; 32],
        &om,
        Op::Add { node_id: id(&devo), hostname: "x".into(), virtual_ip: ip(2), ts: 1 },
    );
    let r = Roster::build(&cfg, std::slice::from_ref(&foreign));
    assert!(r.is_empty());
}

#[test]
fn next_free_ip_skips_taken() {
    let (cfg, _om, devo, mut entries) = setup(); // devo at .2
    let laptop = key(3);
    entries.push(sign(
        cfg.network_id,
        &devo,
        Op::Add { node_id: id(&laptop), hostname: "laptop".into(), virtual_ip: ip(3), ts: 2 },
    ));
    let r = Roster::build(&cfg, &entries);
    assert_eq!(r.next_free_ip(Ipv4Addr::new(10, 99, 0, 0)), Some(ip(4)));
}

#[test]
fn next_free_ip_fills_the_lowest_gap_and_other_subnets() {
    let (cfg, om, _devo, mut entries) = setup(); // devo at .2
    entries.push(sign(cfg.network_id, &om, add(&key(5), "e", 4, 2)));
    let r = Roster::build(&cfg, &entries);
    assert_eq!(r.next_free_ip(Ipv4Addr::new(10, 99, 0, 200)), Some(ip(3)));
    assert_eq!(
        r.next_free_ip(Ipv4Addr::new(10, 98, 0, 0)),
        Some(Ipv4Addr::new(10, 98, 0, 2))
    );
}

#[test]
fn next_free_ip_of_a_full_subnet_is_none() {
    let (cfg, om, _devo, mut entries) = setup(); // devo at .2
    for last in 3u8..=254 {
        let mut node = [0u8; 32];
        node[0] = last;
        entries.push(sign(
            cfg.network_id,
            &om,
            Op::Add { node_id: node, hostname: String::new(), virtual_ip: ip(last), ts: 5 },
        ));
    }
    let r = Roster::build(&cfg, &entries);
    assert_eq!(r.len(), 253);
    assert_eq!(r.next_free_ip(ip(0)), None);
}

#[test]
fn order_and_repeats_do_not_matter() {
    let (cfg, om, devo, mut entries) = setup();
    let laptop = key(3);
    entries.push(sign(cfg.network_id, &devo, add(&laptop, "laptop", 3, 2)));
    entries.push(sign(cfg.network_id, &laptop, add(&key(4), "phone", 4, 3)));
    entries.push(sign(cfg.network_id, &om, Op::Remove { node_id: id(&laptop), ts: 9 }));
    let forward = Roster::build(&cfg, &entries);
    let mut shuffled: Vec<Entry> = entries.iter().rev().cloned().collect();
    shuffled.extend(entries.iter().cloned());
    let backward = Roster::build(&cfg, &shuffled);
    assert_eq!(forward.members(), backward.members());
    assert_eq!(forward.len(), 2);
    assert!(forward.is_member(&id(&key(4))));
    assert!(!forward.is_member(&id(&laptop)));
}

#[test]
fn hostile_writer_changes_nothing() {
    let (cfg, _om, devo, entries) = setup();
    let honest = Roster::build(&cfg, &entries);
    let hostile = key(77);
    let mut pile = entries.clone();
    pile.push(sign(cfg.network_id, &hostile, add(&hostile, "me", 66, 0)));
    pile.push(sign(cfg.network_id, &hostile, add(&key(78), "friend", 67, 5)));
    pile.push(sign(cfg.network_id, &hostile, Op::Remove { node_id: id(&devo), ts: 6 }));
    pile.push(sign(cfg.network_id, &hostile, Op::Freeze { frozen: true, ts: 7 }));
    let attacked = Roster::build(&cfg, &pile);
    assert_eq!(honest.members(), attacked.members());
    assert!(!attacked.frozen());
}

#[test]
fn removed_device_cannot_readmit_itself() {
    let (cfg, om, devo, mut entries) = setup();
    let laptop = key(3);
    entries.push(sign(cfg.network_id, &devo, add(&laptop, "laptop", 3, 2)));
    entries.push(sign(cfg.network_id, &om, Op::Remove { node_id: id(&laptop), ts: 3 }));
    let before = Roster::build(&cfg, &entries);
    entries.push(sign(cfg.network_id, &laptop, add(&laptop, "laptop", 3, 4)));
    let after = Roster::build(&cfg, &entries);
    assert_eq!(before.members(), after.members());
    assert!(!after.is_member(&id(&laptop)));
}

#[test]
fn freeze_binds_the_originator_too() {
    let (cfg, om, devo, mut entries) = setup();
    entries.push(sign(cfg.network_id, &om, Op::Freeze { frozen: true, ts: 3 }));
    let before = Roster::build(&cfg, &entries);
    entries.push(sign(cfg.network_id, &om, add(&key(4), "q", 4, 4)));
    entries.push(sign(cfg.network_id, &devo, Op::Freeze { frozen: false, ts: 5 }));
    entries.push(sign(cfg.network_id, &om, add(&key(5), "r", 5, 6)));
    let after = Roster::build(&cfg, &entries);
    assert!(after.frozen());
    assert_eq!(before.members(), after.members());
    // Removing works while frozen.
    entries.push(sign(cfg.network_id, &om, Op::Remove { node_id: id(&devo), ts: 7 }));
    assert!(Roster::build(&cfg, &entries).is_empty());
}

#[test]
fn newest_entry_is_applied_last() {
    let (cfg, om, devo, mut entries) = setup();
    entries.push(sign(cfg.network_id, &om, add(&devo, "renamed-pc", 9, 2)));
    let r = Roster::build(&cfg, &entries);
    assert_eq!(r.len(), 1);
    assert_eq!(r.member(&id(&devo)).unwrap().hostname, "renamed-pc");
    assert_eq!(r.member(&id(&devo)).unwrap().virtual_ip, ip(9));
}

#[test]
fn members_are_listed_in_id_order_with_their_terms() {
    let (cfg, om, _devo, mut entries) = setup();
    for seed in [9u8, 4, 7] {
        entries.push(sign(cfg.network_id, &om, add(&key(seed), "m", seed, seed as u64)));
    }
    let r = Roster::build(&cfg, &entries);
    let ids: Vec<Id> = r.members().iter().map(|(id, _)| *id).collect();
    let mut sorted = ids.clone();
    sorted.sort();
    assert_eq!(ids, sorted);
    assert_eq!(ids.len(), 4);
    for (node, m) in r.members() {
        assert_eq!(r.member(node), Some(m));
        assert_eq!(m.added_by, id(&om));
    }
    assert_eq!(r.member(&[0u8; 32]), None);
}

#[test]
fn equal_timestamps_are_ordered_by_content_address() {
    // Two adds of one device at one time: the one with the greater content
    // address is applied last and stands.
    let (cfg, om, _devo, mut entries) = setup();
    let a = sign(cfg.network_id, &om, add(&key(8), "first", 8, 5));
    let b = sign(cfg.network_id, &om, add(&key(8), "second", 9, 5));
    let winner = if a.id() < b.id() { "second" } else { "first" };
    entries.push(a);
    entries.push(b);
    let r = Roster::build(&cfg, &entries);
    assert_eq!(r.member(&id(&key(8))).unwrap().hostname, winner);
}

#[test]
fn fold_goes_by_the_given_verdicts_and_addresses() {
    let (cfg, _om, devo, entries) = setup();
    let genesis = &entries[0];
    let no = [Vetted { entry: genesis, id: [1; 32], verified: false }];
    assert!(Roster::fold(&cfg, &no).is_empty());
    let yes = [Vetted { entry: genesis, id: [1; 32], verified: true }];
    assert!(Roster::fold(&cfg, &yes).is_member(&id(&devo)));
    // Of two entries under one address the later stands.
    let other = sign(cfg.network_id, &key(1), add(&key(5), "other", 5, 1));
    let clash = [
        Vetted { entry: genesis, id: [1; 32], verified: true },
        Vetted { entry: &other, id: [1; 32], verified: true },
    ];
    let r = Roster::fold(&cfg, &clash);
    assert!(!r.is_member(&id(&devo)));
    assert!(r.is_member(&id(&key(5))));
    // At one time, the address decides the order.
    let freeze = sign(cfg.network_id, &key(1), Op::Freeze { frozen: true, ts: 1 });
    let early = [
        Vetted { entry: genesis, id: [1; 32], verified: true },
        Vetted { entry: &freeze, id: [0; 32], verified: true },
    ];
    assert!(Roster::fold(&cfg, &early).is_empty());
    let late = [
        Vetted { entry: genesis, id: [1; 32], verified: true },
        Vetted { entry: &freeze, id: [2; 32], verified: true },
    ];
    let r = Roster::fold(&cfg, &late);
    assert!(r.is_member(&id(&devo)));
    assert!(r.frozen());
}

#[test]
fn default_and_cloned_rosters() {
    let empty = Roster::default();
    assert!(empty.is_empty());
    assert_eq!(empty.len(), 0);
    assert!(!empty.frozen());
    let (cfg, om, _devo, mut entries) = setup();
    entries.push(sign(cfg.network_id, &om, Op::Freeze { frozen: true, ts: 3 }));
    let r = Roster::build(&cfg, &entries);
    let c = r.clone();
    assert_eq!(r.members(), c.members());
    assert!(c.frozen());
}

#[test]
fn signature_binds_network_signer_and_operation() {
    let (cfg, _om, devo, _e) = setup();
    let good = sign(cfg.network_id, &devo, add(&key(3), "x", 3, 2));
    assert!(good.verify_signature());
    let mut other_network = good.clone();
    other_network.network_id = [8; 32];
    assert!(!other_network.verify_signature());
    let mut other_signer = good.clone();
    other_signer.signer = id(&key(4));
    assert!(!other_signer.verify_signature());
    let mut other_op = good.clone();
    other_op.op = add(&key(3), "x", 3, 3);
    assert!(!other_op.verify_signature());
    let mut short = good.clone();
    short.signature.pop();
    assert!(!short.verify_signature());
    let mut long = good.clone();
    long.signature.push(0);
    assert!(!long.verify_signature());
    assert_eq!(good.op.ts(), 2);
}

#[test]
fn signature_is_the_one_of_the_library() {
    let (cfg, _om, devo, _e) = setup();
    let op = add(&key(3), "x", 3, 2);
    let message = signing_bytes(&cfg.network_id, &id(&devo), &op);
    let theirs = ed25519_dalek::SigningKey::from_bytes(&[2; 32]);
    assert_eq!(id(&devo), theirs.verifying_key().to_bytes());
    let entry = sign(cfg.network_id, &devo, op);
    assert_eq!(entry.signer, id(&devo));
    assert_eq!(entry.signature, theirs.sign(&message).to_bytes().to_vec());
    assert_ne!(entry.signature, message);
}

#[test]
fn no_key_no_signature() {
    // Bytes that decode to no point of the curve verify nothing.
    let (cfg, _om, devo, _e) = setup();
    let mut e = sign(cfg.network_id, &devo, add(&key(3), "x", 3, 2));
    e.signer = [2; 32];
    assert!(ed25519_dalek::VerifyingKey::from_bytes(&[2; 32]).is_err());
    assert!(!e.verify_signature());
}

#[test]
fn id_is_the_hash_of_the_content() {
    let (_cfg, _om, _devo, entries) = setup();
    let e = &entries[0];
    let mut changed = e.clone();
    changed.signature[5] ^= 1;
    assert_ne!(e.id(), changed.id());
    assert_eq!(e.id(), e.clone().id());
}

#[test]
fn removals_and_freezes_of_others_are_ignored_anywhere() {
    let (cfg, om, devo, mut entries) = setup();
    let laptop = key(3);
    entries.push(sign(cfg.network_id, &devo, add(&laptop, "laptop", 3, 2)));
    entries.push(sign(cfg.network_id, &om, Op::Freeze { frozen: true, ts: 6 }));
    let plain = Roster::build(&cfg, &entries);
    for ts in [0u64, 2, 5, 9] {
        for op in [Op::Remove { node_id: id(&laptop), ts }, Op::Freeze { frozen: false, ts }] {
            for at in 0..=entries.len() {
                let mut pile = entries.clone();
                pile.insert(at, sign(cfg.network_id, &devo, op.clone()));
                let r = Roster::build(&cfg, &pile);
                assert_eq!(r.members(), plain.members());
                assert_eq!(r.frozen(), plain.frozen());
            }
        }
    }
}

#[test]
fn last_freeze_decides() {
    let (cfg, om, _devo, mut entries) = setup();
    assert!(!Roster::build(&cfg, &entries).frozen());
    entries.push(sign(cfg.network_id, &om, Op::Freeze { frozen: false, ts: 9 }));
    entries.push(sign(cfg.network_id, &om, Op::Freeze { frozen: true, ts: 3 }));
    assert!(!Roster::build(&cfg, &entries).frozen());
    entries.push(sign(cfg.network_id, &om, Op::Freeze { frozen: true, ts: 10 }));
    assert!(Roster::build(&cfg, &entries).frozen());
    // At one time, the greater content address has the last word.
    let yes = sign(cfg.network_id, &om, Op::Freeze { frozen: true, ts: 20 });
    let no = sign(cfg.network_id, &om, Op::Freeze { frozen: false, ts: 20 });
    let last = yes.id() > no.id();
    entries.push(yes);
    entries.push(no);
    assert_eq!(Roster::build(&cfg, &entries).frozen(), last);
}
