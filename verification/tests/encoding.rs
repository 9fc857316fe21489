use ciborium::Value;
use ipn::addr::Ipv4Addr;
use ipn::crypto::SigningKey;
use ipn::entry::{sign, signing_bytes, Entry, Op};

fn bytes(s: &[u8]) -> Value {
    Value::Array(s.iter().map(|b| Value::from(*b)).collect())
}

fn pair(name: &str, value: Value) -> (Value, Value) {
    (Value::from(name), value)
}

fn written(v: &Value) -> Vec<u8> {
    let mut buf = Vec::new();
    ciborium::into_writer(v, &mut buf).unwrap();
    buf
}

fn op_value(op: &Op) -> Value {
    match op {
        Op::Add { node_id, hostname, virtual_ip, ts } => Value::Map(vec![pair(
            "Add",
            Value::Map(vec![
                pair("node_id", bytes(node_id)),
                pair("hostname", Value::from(hostname.as_str())),
                pair("virtual_ip", bytes(&virtual_ip.octets())),
                pair("ts", Value::from(*ts)),
            ]),
        )]),
        Op::Remove { node_id, ts } => Value::Map(vec![pair(
            "Remove",
            Value::Map(vec![pair("node_id", bytes(node_id)), pair("ts", Value::from(*ts))]),
        )]),
        Op::Freeze { frozen, ts } => Value::Map(vec![pair(
            "Freeze",
            Value::Map(vec![pair("frozen", Value::from(*frozen)), pair("ts", Value::from(*ts))]),
        )]),
    }
}

fn samples() -> Vec<Op> {
    let long: String = "n\u{e4}me-".repeat(60);
    vec![
        Op::Add {
            node_id: [0; 32],
            hostname: String::new(),
            virtual_ip: Ipv4Addr::new(0, 23, 24, 255),
            ts: 0,
        },
        Op::Add {
            node_id: [200; 32],
            hostname: "laptop".to_string(),
            virtual_ip: Ipv4Addr::new(10, 99, 0, 2),
            ts: 23,
        },
        Op::Add {
            node_id: [24; 32],
            hostname: long,
            virtual_ip: Ipv4Addr::new(10, 99, 0, 3),
            ts: u64::MAX,
        },
        Op::Remove { node_id: [7; 32], ts: 24 },
        Op::Remove { node_id: [255; 32], ts: 65_536 },
        Op::Freeze { frozen: true, ts: 256 },
        Op::Freeze { frozen: false, ts: 4_294_967_296 },
    ]
}

#[test]
fn signed_bytes_are_the_named_fields() {
    for op in samples() {
        let view = Value::Map(vec![
            pair("domain", Value::from("ipn-roster-v1")),
            pair("network_id", bytes(&[9; 32])),
            pair("signer", bytes(&[30; 32])),
            pair("op", op_value(&op)),
        ]);
        assert_eq!(signing_bytes(&[9; 32], &[30; 32], &op), written(&view));
    }
}

#[test]
fn content_address_hashes_the_tuple() {
    for op in samples() {
        let e = Entry { network_id: [1; 32], signer: [99; 32], op, signature: vec![0, 24, 255] };
        let tuple = Value::Array(vec![
            bytes(&e.network_id),
            bytes(&e.signer),
            op_value(&e.op),
            bytes(&e.signature),
        ]);
        assert_eq!(e.id(), *blake3::hash(&written(&tuple)).as_bytes());
    }
}

#[test]
fn stored_bytes_are_the_named_fields() {
    let key = SigningKey::from_bytes(&[5; 32]);
    for op in samples() {
        let e = sign([3; 32], &key, op);
        let record = Value::Map(vec![
            pair("network_id", bytes(&e.network_id)),
            pair("signer", bytes(&e.signer)),
            pair("op", op_value(&e.op)),
            pair("signature", bytes(&e.signature)),
        ]);
        assert_eq!(e.to_bytes(), written(&record));
        let read: Value = ciborium::from_reader(e.to_bytes().as_slice()).unwrap();
        assert_eq!(read, record);
    }
}

#[test]
fn first_bytes_of_a_freeze() {
    let op = Op::Freeze { frozen: true, ts: 3 };
    let signed = signing_bytes(&[0; 32], &[0; 32], &op);
    assert_eq!(&signed[..8], b"\xa4\x66domain");
    assert!(signed.ends_with(b"\x62op\xa1\x66Freeze\xa2\x66frozen\xf5\x62ts\x03"));
}

#[test]
fn different_content_is_signed_differently() {
    let all = samples();
    for (i, p) in all.iter().enumerate() {
        for (j, q) in all.iter().enumerate() {
            let same = signing_bytes(&[0; 32], &[0; 32], p) == signing_bytes(&[0; 32], &[0; 32], q);
            assert_eq!(same, i == j);
        }
        for (j, q) in all.iter().enumerate() {
            let e = Entry { network_id: [0; 32], signer: [0; 32], op: p.clone(), signature: vec![] };
            let f = Entry { network_id: [0; 32], signer: [0; 32], op: q.clone(), signature: vec![] };
            assert_eq!(e.to_bytes() == f.to_bytes(), i == j);
            assert_eq!(e.id() == f.id(), i == j);
        }
        assert_ne!(signing_bytes(&[0; 32], &[0; 32], p), signing_bytes(&[1; 32], &[0; 32], p));
        assert_ne!(signing_bytes(&[0; 32], &[0; 32], p), signing_bytes(&[0; 32], &[1; 32], p));
    }
}
