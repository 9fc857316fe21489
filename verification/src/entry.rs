//! Signed roster entries: what a member says about the membership, in a form
//! that travels.
//!
//! An entry binds an operation to the key that signed it and to one network:
//! the signature is over the canonical bytes of domain, network, signer and
//! operation together. An entry is addressed by the hash of its content.

use vstd::prelude::*;
use vstd::utf8::encode_utf8;

use crate::addr::Ipv4Addr;
use crate::cbor;
use crate::crypto::{
    blake3_digest, content_hash, ed25519_accepts, ed25519_public, ed25519_signature, neutral_point,
    verify_strict, SigningKey,
};
use crate::ids::Id;

verus! {

/// A membership operation. Every variant carries a logical timestamp (`ts`,
/// milliseconds since the Unix epoch) used only to order a concurrent set of
/// entries deterministically; exact wall-clock accuracy is not required.
#[derive(Clone, PartialEq, Eq, Debug)]
pub enum Op {
    /// Admit `node_id` as a member (after out-of-band verification).
    Add { node_id: Id, hostname: String, virtual_ip: Ipv4Addr, ts: u64 },
    /// Revoke a single member. Originator-only.
    Remove { node_id: Id, ts: u64 },
    /// Freeze (or unfreeze) the membership roll. Originator-only.
    Freeze { frozen: bool, ts: u64 },
}

/// What an [`Op`] says.
pub enum OpModel {
    Add { node_id: Seq<u8>, hostname: Seq<char>, virtual_ip: Ipv4Addr, ts: u64 },
    Remove { node_id: Seq<u8>, ts: u64 },
    Freeze { frozen: bool, ts: u64 },
}

impl OpModel {
    /// The logical timestamp.
    pub open spec fn ts(self) -> u64 {
        match self {
            OpModel::Add { ts, .. } => ts,
            OpModel::Remove { ts, .. } => ts,
            OpModel::Freeze { ts, .. } => ts,
        }
    }

    /// Whether the lengths in the operation fit a length prefix, as those of
    /// every [`Op`] do.
    pub open spec fn fits(self) -> bool {
        match self {
            OpModel::Add { node_id, hostname, .. } => node_id.len() <= u64::MAX && encode_utf8(
                hostname,
            ).len() <= u64::MAX,
            OpModel::Remove { node_id, .. } => node_id.len() <= u64::MAX,
            OpModel::Freeze { .. } => true,
        }
    }
}

impl View for Op {
    type V = OpModel;

    open spec fn view(&self) -> OpModel {
        match *self {
            Op::Add { node_id, hostname, virtual_ip, ts } => OpModel::Add {
                node_id: node_id@,
                hostname: hostname@,
                virtual_ip,
                ts,
            },
            Op::Remove { node_id, ts } => OpModel::Remove { node_id: node_id@, ts },
            Op::Freeze { frozen, ts } => OpModel::Freeze { frozen, ts },
        }
    }
}

impl Op {
    /// The logical timestamp.
    pub fn ts(&self) -> (r: u64)
        ensures
            r == self@.ts(),
    {
        match self {
            Op::Add { ts, .. } => *ts,
            Op::Remove { ts, .. } => *ts,
            Op::Freeze { ts, .. } => *ts,
        }
    }
}

/// A signed roster entry. `signature` is over the canonical bytes of domain,
/// `network_id`, `signer` and `op`, so it binds the op to the claimed signer and
/// to this specific network.
#[derive(Clone, Debug)]
pub struct Entry {
    pub network_id: Id,
    pub signer: Id,
    pub op: Op,
    pub signature: Vec<u8>,
}

/// What an [`Entry`] says.
pub struct EntryModel {
    pub network_id: Seq<u8>,
    pub signer: Seq<u8>,
    pub op: OpModel,
    pub signature: Seq<u8>,
}

impl EntryModel {
    /// Whether the lengths in the entry fit a length prefix, as those of every
    /// [`Entry`] do.
    pub open spec fn fits(self) -> bool {
        &&& self.network_id.len() <= u64::MAX
        &&& self.signer.len() <= u64::MAX
        &&& self.op.fits()
        &&& self.signature.len() <= u64::MAX
    }

    /// Whether the signature is the claimed signer's, on this network and this
    /// operation: it has 64 bytes and strict verification accepts it.
    pub open spec fn verified(self) -> bool {
        &&& self.signature.len() == 64
        &&& ed25519_accepts(
            self.signer,
            signing_form(self.network_id, self.signer, self.op),
            self.signature,
        )
    }

    /// The content address: the hash of the entry's tuple form.
    pub open spec fn id(self) -> Seq<u8> {
        blake3_digest(tuple_form(self))
    }
}

impl View for Entry {
    type V = EntryModel;

    open spec fn view(&self) -> EntryModel {
        EntryModel {
            network_id: self.network_id@,
            signer: self.signer@,
            op: self.op@,
            signature: self.signature@,
        }
    }
}

// ---------------------------------------------------------------------------
// Canonical bytes
// ---------------------------------------------------------------------------

/// An operation: a map of one pair, from the variant's name to a map of its
/// fields by name.
pub open spec fn op_form(op: OpModel) -> Seq<u8> {
    match op {
        OpModel::Add { node_id, hostname, virtual_ip, ts } => cbor::head(5, 1) + cbor::text("Add"@)
            + cbor::head(5, 4) + cbor::text("node_id"@) + cbor::bytes(node_id) + cbor::text(
            "hostname"@,
        ) + cbor::text(hostname) + cbor::text("virtual_ip"@) + cbor::bytes(virtual_ip.bytes())
            + cbor::text("ts"@) + cbor::uint(ts),
        OpModel::Remove { node_id, ts } => cbor::head(5, 1) + cbor::text("Remove"@) + cbor::head(
            5,
            2,
        ) + cbor::text("node_id"@) + cbor::bytes(node_id) + cbor::text("ts"@) + cbor::uint(ts),
        OpModel::Freeze { frozen, ts } => cbor::head(5, 1) + cbor::text("Freeze"@) + cbor::head(5, 2)
            + cbor::text("frozen"@) + cbor::flag(frozen) + cbor::text("ts"@) + cbor::uint(ts),
    }
}

/// What gets signed: a map of domain, network, signer and operation.
pub open spec fn signing_form(network_id: Seq<u8>, signer: Seq<u8>, op: OpModel) -> Seq<u8> {
    cbor::head(5, 4) + cbor::text("domain"@) + cbor::text("ipn-roster-v1"@) + cbor::text("network_id"@)
        + cbor::bytes(network_id) + cbor::text("signer"@) + cbor::bytes(signer) + cbor::text("op"@)
        + op_form(op)
}

/// What gets hashed: the four parts of an entry as a tuple.
pub open spec fn tuple_form(e: EntryModel) -> Seq<u8> {
    cbor::head(4, 4) + cbor::bytes(e.network_id) + cbor::bytes(e.signer) + op_form(e.op) + cbor::bytes(
        e.signature,
    )
}

/// What gets stored: the four parts of an entry by name.
pub open spec fn record_form(e: EntryModel) -> Seq<u8> {
    cbor::head(5, 4) + cbor::text("network_id"@) + cbor::bytes(e.network_id) + cbor::text("signer"@)
        + cbor::bytes(e.signer) + cbor::text("op"@) + op_form(e.op) + cbor::text("signature"@)
        + cbor::bytes(e.signature)
}

/// Append `piece` to `buf`.
fn put(buf: &mut Vec<u8>, piece: Vec<u8>)
    ensures
        final(buf)@ == old(buf)@ + piece@,
{
    let mut piece = piece;
    buf.append(&mut piece);
}

/// Append one byte to `buf`.
fn put_head(buf: &mut Vec<u8>, head: u8)
    ensures
        final(buf)@ == old(buf)@ + seq![head],
{
    buf.push(head);
    assert(buf@ =~= old(buf)@ + seq![head]);
}

/// The bytes of an operation.
fn op_bytes(op: &Op) -> (r: Vec<u8>)
    ensures
        r@ == op_form(op@),
{
    let mut buf: Vec<u8> = Vec::new();
    put_head(&mut buf, cbor::encode_map_head(1));
    assert(buf@ =~= cbor::head(5, 1));
    match op {
        Op::Add { node_id, hostname, virtual_ip, ts } => {
            put(&mut buf, cbor::encode_text("Add"));
            put_head(&mut buf, cbor::encode_map_head(4));
            put(&mut buf, cbor::encode_text("node_id"));
            put(&mut buf, cbor::encode_bytes(node_id.as_slice()));
            put(&mut buf, cbor::encode_text("hostname"));
            put(&mut buf, cbor::encode_text(hostname.as_str()));
            put(&mut buf, cbor::encode_text("virtual_ip"));
            put(&mut buf, cbor::encode_bytes(virtual_ip.octets().as_slice()));
            put(&mut buf, cbor::encode_text("ts"));
            put(&mut buf, cbor::encode_uint(*ts));
        },
        Op::Remove { node_id, ts } => {
            put(&mut buf, cbor::encode_text("Remove"));
            put_head(&mut buf, cbor::encode_map_head(2));
            put(&mut buf, cbor::encode_text("node_id"));
            put(&mut buf, cbor::encode_bytes(node_id.as_slice()));
            put(&mut buf, cbor::encode_text("ts"));
            put(&mut buf, cbor::encode_uint(*ts));
        },
        Op::Freeze { frozen, ts } => {
            put(&mut buf, cbor::encode_text("Freeze"));
            put_head(&mut buf, cbor::encode_map_head(2));
            put(&mut buf, cbor::encode_text("frozen"));
            put(&mut buf, cbor::encode_flag(*frozen));
            put(&mut buf, cbor::encode_text("ts"));
            put(&mut buf, cbor::encode_uint(*ts));
        },
    }
    buf
}

/// Canonical bytes that get signed for an entry.
pub fn signing_bytes(network_id: &Id, signer: &Id, op: &Op) -> (r: Vec<u8>)
    ensures
        r@ == signing_form(network_id@, signer@, op@),
{
    let mut buf: Vec<u8> = Vec::new();
    put_head(&mut buf, cbor::encode_map_head(4));
    assert(buf@ =~= cbor::head(5, 4));
    put(&mut buf, cbor::encode_text("domain"));
    put(&mut buf, cbor::encode_text("ipn-roster-v1"));
    put(&mut buf, cbor::encode_text("network_id"));
    put(&mut buf, cbor::encode_bytes(network_id.as_slice()));
    put(&mut buf, cbor::encode_text("signer"));
    put(&mut buf, cbor::encode_bytes(signer.as_slice()));
    put(&mut buf, cbor::encode_text("op"));
    put(&mut buf, op_bytes(op));
    buf
}

/// The 64-byte array with the bytes of `s`, if `s` has 64 bytes.
fn to_array_64(s: &[u8]) -> (r: Option<[u8; 64]>)
    ensures
        match r {
            Some(a) => a@ == s@,
            None => s@.len() != 64,
        },
{
    if s.len() != 64 {
        return None;
    }
    let mut a = [0u8; 64];
    let mut i: usize = 0;
    while i < 64
        invariant
            i <= 64,
            s@.len() == 64,
            forall|j: int| 0 <= j < i ==> a@[j] == s@[j],
        decreases 64 - i,
    {
        a[i] = s[i];
        i = i + 1;
    }
    assert(a@ =~= s@);
    Some(a)
}

impl Entry {
    /// Content address of this entry (used for dedup and as the tie-break of
    /// equal timestamps).
    pub fn id(&self) -> (r: [u8; 32])
        ensures
            r@ == self@.id(),
    {
        let mut buf: Vec<u8> = Vec::new();
        put_head(&mut buf, cbor::encode_array_head(4));
        assert(buf@ =~= cbor::head(4, 4));
        put(&mut buf, cbor::encode_bytes(self.network_id.as_slice()));
        put(&mut buf, cbor::encode_bytes(self.signer.as_slice()));
        put(&mut buf, op_bytes(&self.op));
        put(&mut buf, cbor::encode_bytes(self.signature.as_slice()));
        content_hash(buf.as_slice())
    }

    /// The bytes under which this entry is stored.
    pub fn to_bytes(&self) -> (r: Vec<u8>)
        ensures
            r@ == record_form(self@),
    {
        let mut buf: Vec<u8> = Vec::new();
        put_head(&mut buf, cbor::encode_map_head(4));
        assert(buf@ =~= cbor::head(5, 4));
        put(&mut buf, cbor::encode_text("network_id"));
        put(&mut buf, cbor::encode_bytes(self.network_id.as_slice()));
        put(&mut buf, cbor::encode_text("signer"));
        put(&mut buf, cbor::encode_bytes(self.signer.as_slice()));
        put(&mut buf, cbor::encode_text("op"));
        put(&mut buf, op_bytes(&self.op));
        put(&mut buf, cbor::encode_text("signature"));
        put(&mut buf, cbor::encode_bytes(self.signature.as_slice()));
        buf
    }

    /// Verify the entry's signature against its claimed signer. This checks
    /// authenticity only; authorization (role rules) is applied when the roster
    /// is built.
    pub fn verify_signature(&self) -> (r: bool)
        ensures
            r == self@.verified(),
    {
        match to_array_64(self.signature.as_slice()) {
            Some(signature) => {
                let message = signing_bytes(&self.network_id, &self.signer, &self.op);
                verify_strict(&self.signer, message.as_slice(), &signature)
            },
            None => false,
        }
    }
}

/// Sign an op, producing a transmittable [`Entry`]. `signing_key` is the
/// member's device key (for `Add`) or the originator master key (for
/// `Remove`/`Freeze`).
pub fn sign(network_id: Id, signing_key: &SigningKey, op: Op) -> (r: Entry)
    ensures
        r.network_id == network_id,
        r.op == op,
        r@.signer == ed25519_public(signing_key@),
        r@.signature == ed25519_signature(
            signing_key@,
            signing_form(network_id@, ed25519_public(signing_key@), op@),
        ),
        r@.signature.len() == 64,
        r@.signature.take(32) != neutral_point() ==> r@.verified(),
{
    let signer = signing_key.verifying_key();
    let message = signing_bytes(&network_id, &signer, &op);
    let signature = signing_key.sign(message.as_slice());
    Entry { network_id, signer, op, signature: vstd::slice::slice_to_vec(signature.as_slice()) }
}

// ---------------------------------------------------------------------------
// Laws
// ---------------------------------------------------------------------------

/// What follows the variant's name in the bytes of an operation, with `x` after
/// it.
spec fn fields_form(p: OpModel, x: Seq<u8>) -> Seq<u8> {
    match p {
        OpModel::Add { node_id, hostname, virtual_ip, ts } => cbor::head(5, 4) + (cbor::text(
            "node_id"@,
        ) + (cbor::bytes(node_id) + (cbor::text("hostname"@) + (cbor::text(hostname) + (cbor::text(
            "virtual_ip"@,
        ) + (cbor::bytes(virtual_ip.bytes()) + (cbor::text("ts"@) + (cbor::uint(ts) + x)))))))),
        OpModel::Remove { node_id, ts } => cbor::head(5, 2) + (cbor::text("node_id"@) + (cbor::bytes(
            node_id,
        ) + (cbor::text("ts"@) + (cbor::uint(ts) + x)))),
        OpModel::Freeze { frozen, ts } => cbor::head(5, 2) + (cbor::text("frozen"@) + (cbor::flag(
            frozen,
        ) + (cbor::text("ts"@) + (cbor::uint(ts) + x)))),
    }
}

/// The variant's name in the bytes of an operation.
spec fn op_name(p: OpModel) -> Seq<char> {
    match p {
        OpModel::Add { .. } => "Add"@,
        OpModel::Remove { .. } => "Remove"@,
        OpModel::Freeze { .. } => "Freeze"@,
    }
}

/// The bytes of an operation begin with a map head and the variant's name.
proof fn lemma_op_front(p: OpModel, x: Seq<u8>)
    ensures
        op_form(p) + x == cbor::head(5, 1) + (cbor::text(op_name(p)) + fields_form(p, x)),
{
    broadcast use cbor::lemma_regroup;

}

/// The variants' names are short, and no two are the same.
proof fn lemma_names()
    ensures
        encode_utf8("Add"@).len() <= u64::MAX,
        encode_utf8("Remove"@).len() <= u64::MAX,
        encode_utf8("Freeze"@).len() <= u64::MAX,
        "Add"@ != "Remove"@,
        "Add"@ != "Freeze"@,
        "Remove"@ != "Freeze"@,
{
    reveal_strlit("Add");
    reveal_strlit("Remove");
    reveal_strlit("Freeze");
    assert("Remove"@[0] != "Freeze"@[0]);
    vstd::utf8::is_ascii_chars_encode_utf8("Add"@);
    vstd::utf8::is_ascii_chars_encode_utf8("Remove"@);
    vstd::utf8::is_ascii_chars_encode_utf8("Freeze"@);
}

/// The timestamp at the end of an operation can be told from what follows.
proof fn lemma_ts_read(t1: u64, x: Seq<u8>, t2: u64, y: Seq<u8>)
    requires
        cbor::text("ts"@) + (cbor::uint(t1) + x) == cbor::text("ts"@) + (cbor::uint(t2) + y),
    ensures
        t1 == t2,
        x == y,
{
    cbor::lemma_split(cbor::text("ts"@), cbor::uint(t1) + x, cbor::text("ts"@), cbor::uint(t2) + y);
    cbor::lemma_head_read(0, t1 as nat, x, t2 as nat, y);
}

/// An identity field can be told from what follows.
proof fn lemma_node_read(n1: Seq<u8>, x: Seq<u8>, n2: Seq<u8>, y: Seq<u8>)
    requires
        n1.len() <= u64::MAX,
        n2.len() <= u64::MAX,
        cbor::text("node_id"@) + (cbor::bytes(n1) + x) == cbor::text("node_id"@) + (cbor::bytes(n2) + y),
    ensures
        n1 == n2,
        x == y,
{
    cbor::lemma_split(
        cbor::text("node_id"@),
        cbor::bytes(n1) + x,
        cbor::text("node_id"@),
        cbor::bytes(n2) + y,
    );
    cbor::lemma_bytes_read(n1, x, n2, y);
}

/// A name field and an address field can be told from what follows.
proof fn lemma_host_read(
    h1: Seq<char>,
    v1: Ipv4Addr,
    x: Seq<u8>,
    h2: Seq<char>,
    v2: Ipv4Addr,
    y: Seq<u8>,
)
    requires
        encode_utf8(h1).len() <= u64::MAX,
        encode_utf8(h2).len() <= u64::MAX,
        cbor::text("hostname"@) + (cbor::text(h1) + (cbor::text("virtual_ip"@) + (cbor::bytes(v1.bytes())
            + x))) == cbor::text("hostname"@) + (cbor::text(h2) + (cbor::text("virtual_ip"@) + (
        cbor::bytes(v2.bytes()) + y))),
    ensures
        h1 == h2,
        v1 == v2,
        x == y,
{
    let b1 = cbor::bytes(v1.bytes()) + x;
    let b2 = cbor::bytes(v2.bytes()) + y;
    let a1 = cbor::text("virtual_ip"@) + b1;
    let a2 = cbor::text("virtual_ip"@) + b2;
    cbor::lemma_split(
        cbor::text("hostname"@),
        cbor::text(h1) + a1,
        cbor::text("hostname"@),
        cbor::text(h2) + a2,
    );
    cbor::lemma_text_read(h1, a1, h2, a2);
    cbor::lemma_split(cbor::text("virtual_ip"@), b1, cbor::text("virtual_ip"@), b2);
    cbor::lemma_bytes_read(v1.bytes(), x, v2.bytes(), y);
    assert(v1.bytes()[0] == v2.bytes()[0] && v1.bytes()[1] == v2.bytes()[1] && v1.bytes()[2]
        == v2.bytes()[2] && v1.bytes()[3] == v2.bytes()[3]);
}

/// The fields of two operations of one kind can be told from what follows.
proof fn lemma_fields_read(p: OpModel, x: Seq<u8>, q: OpModel, y: Seq<u8>)
    requires
        p.fits(),
        q.fits(),
        op_name(p) == op_name(q),
        fields_form(p, x) == fields_form(q, y),
    ensures
        p == q,
        x == y,
{
    lemma_names();
    match (p, q) {
        (
            OpModel::Add { node_id: n1, hostname: h1, virtual_ip: v1, ts: t1 },
            OpModel::Add { node_id: n2, hostname: h2, virtual_ip: v2, ts: t2 },
        ) => {
            let c1 = cbor::text("ts"@) + (cbor::uint(t1) + x);
            let c2 = cbor::text("ts"@) + (cbor::uint(t2) + y);
            let b1 = cbor::text("hostname"@) + (cbor::text(h1) + (cbor::text("virtual_ip"@) + (
            cbor::bytes(v1.bytes()) + c1)));
            let b2 = cbor::text("hostname"@) + (cbor::text(h2) + (cbor::text("virtual_ip"@) + (
            cbor::bytes(v2.bytes()) + c2)));
            let a1 = cbor::text("node_id"@) + (cbor::bytes(n1) + b1);
            let a2 = cbor::text("node_id"@) + (cbor::bytes(n2) + b2);
            cbor::lemma_split(cbor::head(5, 4), a1, cbor::head(5, 4), a2);
            lemma_node_read(n1, b1, n2, b2);
            lemma_host_read(h1, v1, c1, h2, v2, c2);
            lemma_ts_read(t1, x, t2, y);
        },
        (OpModel::Remove { node_id: n1, ts: t1 }, OpModel::Remove { node_id: n2, ts: t2 }) => {
            let b1 = cbor::text("ts"@) + (cbor::uint(t1) + x);
            let b2 = cbor::text("ts"@) + (cbor::uint(t2) + y);
            let a1 = cbor::text("node_id"@) + (cbor::bytes(n1) + b1);
            let a2 = cbor::text("node_id"@) + (cbor::bytes(n2) + b2);
            cbor::lemma_split(cbor::head(5, 2), a1, cbor::head(5, 2), a2);
            lemma_node_read(n1, b1, n2, b2);
            lemma_ts_read(t1, x, t2, y);
        },
        (OpModel::Freeze { frozen: f1, ts: t1 }, OpModel::Freeze { frozen: f2, ts: t2 }) => {
            let b1 = cbor::text("ts"@) + (cbor::uint(t1) + x);
            let b2 = cbor::text("ts"@) + (cbor::uint(t2) + y);
            let a1 = cbor::flag(f1) + b1;
            let a2 = cbor::flag(f2) + b2;
            cbor::lemma_split(
                cbor::head(5, 2),
                cbor::text("frozen"@) + a1,
                cbor::head(5, 2),
                cbor::text("frozen"@) + a2,
            );
            cbor::lemma_split(cbor::text("frozen"@), a1, cbor::text("frozen"@), a2);
            cbor::lemma_flag_read(f1, b1, f2, b2);
            lemma_ts_read(t1, x, t2, y);
        },
        _ => {},
    }
}

/// The bytes of an operation at the front of a string tell the operation.
proof fn lemma_op_read(p: OpModel, x: Seq<u8>, q: OpModel, y: Seq<u8>)
    requires
        p.fits(),
        q.fits(),
        op_form(p) + x == op_form(q) + y,
    ensures
        p == q,
        x == y,
{
    lemma_op_front(p, x);
    lemma_op_front(q, y);
    let a = cbor::text(op_name(p)) + fields_form(p, x);
    let b = cbor::text(op_name(q)) + fields_form(q, y);
    cbor::lemma_split(cbor::head(5, 1), a, cbor::head(5, 1), b);
    lemma_names();
    cbor::lemma_text_read(op_name(p), fields_form(p, x), op_name(q), fields_form(q, y));
    lemma_fields_read(p, x, q, y);
}

/// Network, signer and operation can be told from the middle of a form.
proof fn lemma_parts_read(
    n1: Seq<u8>,
    s1: Seq<u8>,
    p: OpModel,
    x: Seq<u8>,
    n2: Seq<u8>,
    s2: Seq<u8>,
    q: OpModel,
    y: Seq<u8>,
)
    requires
        n1.len() <= u64::MAX,
        n2.len() <= u64::MAX,
        s1.len() <= u64::MAX,
        s2.len() <= u64::MAX,
        p.fits(),
        q.fits(),
        cbor::bytes(n1) + (cbor::text("signer"@) + (cbor::bytes(s1) + (cbor::text("op"@) + (op_form(p)
            + x)))) == cbor::bytes(n2) + (cbor::text("signer"@) + (cbor::bytes(s2) + (cbor::text("op"@)
            + (op_form(q) + y)))),
    ensures
        n1 == n2,
        s1 == s2,
        p == q,
        x == y,
{
    let c1 = cbor::text("op"@) + (op_form(p) + x);
    let c2 = cbor::text("op"@) + (op_form(q) + y);
    let b1 = cbor::bytes(s1) + c1;
    let b2 = cbor::bytes(s2) + c2;
    cbor::lemma_bytes_read(n1, cbor::text("signer"@) + b1, n2, cbor::text("signer"@) + b2);
    cbor::lemma_split(cbor::text("signer"@), b1, cbor::text("signer"@), b2);
    cbor::lemma_bytes_read(s1, c1, s2, c2);
    cbor::lemma_split(cbor::text("op"@), op_form(p) + x, cbor::text("op"@), op_form(q) + y);
    lemma_op_read(p, x, q, y);
}

/// The signed bytes, bracketed from the right.
proof fn lemma_signing_front(n: Seq<u8>, s: Seq<u8>, p: OpModel) -> (front: Seq<u8>)
    ensures
        front == cbor::head(5, 4) + cbor::text("domain"@) + cbor::text("ipn-roster-v1"@) + cbor::text(
            "network_id"@,
        ),
        signing_form(n, s, p) == front + (cbor::bytes(n) + (cbor::text("signer"@) + (cbor::bytes(s) + (
        cbor::text("op"@) + (op_form(p) + Seq::<u8>::empty()))))),
{
    broadcast use cbor::lemma_regroup;

    assert(op_form(p) + Seq::<u8>::empty() =~= op_form(p));
    cbor::head(5, 4) + cbor::text("domain"@) + cbor::text("ipn-roster-v1"@) + cbor::text("network_id"@)
}

/// The stored bytes, bracketed from the right.
proof fn lemma_record_front(e: EntryModel) -> (front: Seq<u8>)
    ensures
        front == cbor::head(5, 4) + cbor::text("network_id"@),
        record_form(e) == front + (cbor::bytes(e.network_id) + (cbor::text("signer"@) + (cbor::bytes(
            e.signer,
        ) + (cbor::text("op"@) + (op_form(e.op) + (cbor::text("signature"@) + (cbor::bytes(e.signature)
            + Seq::<u8>::empty()))))))),
{
    broadcast use cbor::lemma_regroup;

    assert(cbor::bytes(e.signature) + Seq::<u8>::empty() =~= cbor::bytes(e.signature));
    cbor::head(5, 4) + cbor::text("network_id"@)
}

/// The signed bytes bind the operation to its signer and to its network: no two
/// different triples are signed with the same bytes.
pub proof fn law_signature_binds(
    net1: Seq<u8>,
    signer1: Seq<u8>,
    op1: OpModel,
    net2: Seq<u8>,
    signer2: Seq<u8>,
    op2: OpModel,
)
    requires
        net1.len() == 32,
        net2.len() == 32,
        signer1.len() == 32,
        signer2.len() == 32,
        op1.fits(),
        op2.fits(),
        signing_form(net1, signer1, op1) == signing_form(net2, signer2, op2),
    ensures
        net1 == net2,
        signer1 == signer2,
        op1 == op2,
{
    let e = Seq::<u8>::empty();
    let f1 = lemma_signing_front(net1, signer1, op1);
    let f2 = lemma_signing_front(net2, signer2, op2);
    cbor::lemma_split(
        f1,
        cbor::bytes(net1) + (cbor::text("signer"@) + (cbor::bytes(signer1) + (cbor::text("op"@) + (
        op_form(op1) + e)))),
        f2,
        cbor::bytes(net2) + (cbor::text("signer"@) + (cbor::bytes(signer2) + (cbor::text("op"@) + (
        op_form(op2) + e)))),
    );
    lemma_parts_read(net1, signer1, op1, e, net2, signer2, op2, e);
}

/// The hashed bytes hold the whole entry: no two different entries are hashed
/// from the same bytes.
pub proof fn law_id_covers_entry(x: EntryModel, y: EntryModel)
    requires
        x.fits(),
        y.fits(),
        tuple_form(x) == tuple_form(y),
    ensures
        x == y,
{
    let e = Seq::<u8>::empty();
    let c1 = op_form(x.op) + (cbor::bytes(x.signature) + e);
    let c2 = op_form(y.op) + (cbor::bytes(y.signature) + e);
    let b1 = cbor::bytes(x.signer) + c1;
    let b2 = cbor::bytes(y.signer) + c2;
    assert(tuple_form(x) =~= cbor::head(4, 4) + (cbor::bytes(x.network_id) + b1));
    assert(tuple_form(y) =~= cbor::head(4, 4) + (cbor::bytes(y.network_id) + b2));
    cbor::lemma_split(
        cbor::head(4, 4),
        cbor::bytes(x.network_id) + b1,
        cbor::head(4, 4),
        cbor::bytes(y.network_id) + b2,
    );
    cbor::lemma_bytes_read(x.network_id, b1, y.network_id, b2);
    cbor::lemma_bytes_read(x.signer, c1, y.signer, c2);
    lemma_op_read(x.op, cbor::bytes(x.signature) + e, y.op, cbor::bytes(y.signature) + e);
    cbor::lemma_bytes_read(x.signature, e, y.signature, e);
}

/// The stored bytes hold the whole entry: no two different entries are stored as
/// the same bytes.
pub proof fn law_record_covers_entry(x: EntryModel, y: EntryModel)
    requires
        x.fits(),
        y.fits(),
        record_form(x) == record_form(y),
    ensures
        x == y,
{
    let e = Seq::<u8>::empty();
    let f1 = lemma_record_front(x);
    let f2 = lemma_record_front(y);
    let d1 = cbor::text("signature"@) + (cbor::bytes(x.signature) + e);
    let d2 = cbor::text("signature"@) + (cbor::bytes(y.signature) + e);
    cbor::lemma_split(
        f1,
        cbor::bytes(x.network_id) + (cbor::text("signer"@) + (cbor::bytes(x.signer) + (cbor::text(
            "op"@,
        ) + (op_form(x.op) + d1)))),
        f2,
        cbor::bytes(y.network_id) + (cbor::text("signer"@) + (cbor::bytes(y.signer) + (cbor::text(
            "op"@,
        ) + (op_form(y.op) + d2)))),
    );
    lemma_parts_read(x.network_id, x.signer, x.op, d1, y.network_id, y.signer, y.op, d2);
    cbor::lemma_split(
        cbor::text("signature"@),
        cbor::bytes(x.signature) + e,
        cbor::text("signature"@),
        cbor::bytes(y.signature) + e,
    );
    cbor::lemma_bytes_read(x.signature, e, y.signature, e);
}

/// The bytes of an operation, item by item: a map of one pair from the variant's
/// name to a map of the fields by name, in the order of their declaration.
pub proof fn law_operation_is_written_field_by_field(op: OpModel)
    ensures
        match op {
            OpModel::Add { node_id, hostname, virtual_ip, ts } => op_form(op) == seq![0xa1u8] + cbor::text(
                "Add"@,
            ) + seq![0xa4u8] + cbor::text("node_id"@) + cbor::bytes(node_id) + cbor::text("hostname"@)
                + cbor::text(hostname) + cbor::text("virtual_ip"@) + cbor::bytes(
                seq![virtual_ip.a, virtual_ip.b, virtual_ip.c, virtual_ip.d],
            ) + cbor::text("ts"@) + cbor::uint(ts),
            OpModel::Remove { node_id, ts } => op_form(op) == seq![0xa1u8] + cbor::text("Remove"@)
                + seq![0xa2u8] + cbor::text("node_id"@) + cbor::bytes(node_id) + cbor::text("ts"@)
                + cbor::uint(ts),
            OpModel::Freeze { frozen, ts } => op_form(op) == seq![0xa1u8] + cbor::text("Freeze"@)
                + seq![0xa2u8] + cbor::text("frozen"@) + (if frozen {
                seq![0xf5u8]
            } else {
                seq![0xf4u8]
            }) + cbor::text("ts"@) + cbor::uint(ts),
        },
{
}

/// The signed bytes, item by item: a map of four pairs with the domain of the
/// roster, the network, the signer and the operation.
pub proof fn law_signed_bytes_are_written_field_by_field(
    network_id: &Id,
    signer: &Id,
    op: &Op,
    r: Vec<u8>,
)
    requires
        call_ensures(signing_bytes, (network_id, signer, op), r),
    ensures
        r@ == seq![0xa4u8] + cbor::text("domain"@) + cbor::text("ipn-roster-v1"@) + cbor::text(
            "network_id"@,
        ) + cbor::bytes(network_id@) + cbor::text("signer"@) + cbor::bytes(signer@) + cbor::text("op"@)
            + op_form(op@),
{
}

/// The stored bytes, item by item: a map of four pairs with the network, the
/// signer, the operation and the signature.
pub proof fn law_stored_bytes_are_written_field_by_field(entry: &Entry, r: Vec<u8>)
    requires
        call_ensures(Entry::to_bytes, (entry,), r),
    ensures
        r@ == seq![0xa4u8] + cbor::text("network_id"@) + cbor::bytes(entry.network_id@) + cbor::text(
            "signer"@,
        ) + cbor::bytes(entry.signer@) + cbor::text("op"@) + op_form(entry.op@) + cbor::text(
            "signature"@,
        ) + cbor::bytes(entry.signature@),
{
}

/// The content address is the hash of network, signer, operation and signature,
/// written as an array of four.
pub proof fn law_address_hashes_the_whole_entry(entry: &Entry, r: [u8; 32])
    requires
        call_ensures(Entry::id, (entry,), r),
    ensures
        r@ == blake3_digest(
            seq![0x84u8] + cbor::bytes(entry.network_id@) + cbor::bytes(entry.signer@) + op_form(entry.op@)
                + cbor::bytes(entry.signature@),
        ),
{
}

/// The signature of an entry is checked with its own signer as the key, over the
/// signed bytes of its own network, signer and operation; one that has not 64
/// bytes is never good.
pub proof fn law_signature_is_checked_against_the_claims(entry: &Entry, r: bool)
    requires
        call_ensures(Entry::verify_signature, (entry,), r),
    ensures
        r <==> entry.signature@.len() == 64 && ed25519_accepts(
            entry.signer@,
            signing_form(entry.network_id@, entry.signer@, entry.op@),
            entry.signature@,
        ),
{
}

/// What was signed verifies: the entry that signing gives names the key that
/// signed it, carries the operation and the network as they were given, and its
/// signature is found good, unless the point in it is the neutral one.
pub proof fn law_signed_entries_verify(
    network_id: Id,
    signing_key: &SigningKey,
    op: Op,
    e: Entry,
    good: bool,
    key: Id,
)
    requires
        call_ensures(sign, (network_id, signing_key, op), e),
        call_ensures(Entry::verify_signature, (&e,), good),
        call_ensures(SigningKey::verifying_key, (signing_key,), key),
    ensures
        e.network_id == network_id,
        e.op == op,
        e.signer@ == key@,
        e.signature@.take(32) != neutral_point() ==> good,
{
}

/// What the models of operations and entries say is what the fields hold.
pub proof fn law_models_say_what_the_fields_hold(e: Entry)
    ensures
        e@.network_id == e.network_id@,
        e@.signer == e.signer@,
        e@.signature == e.signature@,
        match e.op {
            Op::Add { node_id, hostname, virtual_ip, ts } => e@.op == (OpModel::Add {
                node_id: node_id@,
                hostname: hostname@,
                virtual_ip,
                ts,
            }),
            Op::Remove { node_id, ts } => e@.op == (OpModel::Remove { node_id: node_id@, ts }),
            Op::Freeze { frozen, ts } => e@.op == (OpModel::Freeze { frozen, ts }),
        },
{
}

} // verus!
