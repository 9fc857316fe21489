//! The signed membership roster.
//!
//! The roster is an append-only set of signed entries that fold into the
//! current membership. It is designed to ride on a multi-writer store where the
//! write capability cannot be un-shared, so a removed member physically retains
//! the ability to append entries. Security therefore does not come from
//! controlling who can write; it comes from these role rules, enforced every
//! time the roster is rebuilt:
//!
//!   * `Add`: a member may vouch for a joiner. Valid iff the signer is a current
//!     member (or the originator) and the roster is not frozen at that point.
//!   * `Remove`: valid iff signed by the originator master key.
//!   * `Freeze`: valid iff signed by the originator master key.
//!
//! A member's signing key is their device key: the 32-byte node id doubles as
//! the verifying key for that member's signatures. The originator master key is
//! a separate keypair, so super-admin authority survives device loss.
//!
//! The model is a replay: the authentic entries of the network, one per content
//! address, are put in order of timestamp and content address and applied one
//! after the other to an empty roster.

use vstd::prelude::*;

use crate::addr::Ipv4Addr;
use crate::entry::{EntryModel, OpModel};
use crate::idmap;
use crate::idmap::IdMap;
use crate::ids;
use crate::ids::{id_before, same_id};

pub use crate::clock::now_ms;
pub use crate::entry::{sign, Entry, Op};
pub use crate::ids::Id;

verus! {

/// Network parameters needed to evaluate the roster.
#[derive(Clone, Debug)]
pub struct Config {
    /// Stable identifier for this network (domain separation across networks).
    pub network_id: Id,
    /// The originator master public key: the sole authority for removals and
    /// freezing, and the bootstrap signer of the first member.
    pub originator_id: Id,
}

/// What a [`Config`] says.
pub struct ConfigModel {
    pub network_id: Seq<u8>,
    pub originator_id: Seq<u8>,
}

impl View for Config {
    type V = ConfigModel;

    open spec fn view(&self) -> ConfigModel {
        ConfigModel { network_id: self.network_id@, originator_id: self.originator_id@ }
    }
}

/// A current member of the network.
#[derive(Debug, PartialEq, Eq)]
pub struct Member {
    pub hostname: String,
    pub virtual_ip: Ipv4Addr,
    /// Which key vouched this member in (a current member, or the originator).
    pub added_by: Id,
}

/// What a [`Member`] says.
pub struct MemberModel {
    pub hostname: Seq<char>,
    pub virtual_ip: Ipv4Addr,
    pub added_by: Seq<u8>,
}

impl View for Member {
    type V = MemberModel;

    open spec fn view(&self) -> MemberModel {
        MemberModel { hostname: self.hostname@, virtual_ip: self.virtual_ip, added_by: self.added_by@ }
    }
}

/// The state of the membership: who is in, and whether the roll is frozen.
#[verifier::ext_equal]
pub struct RosterModel {
    pub members: Map<Seq<u8>, MemberModel>,
    pub frozen: bool,
}

// ---------------------------------------------------------------------------
// The role rules
// ---------------------------------------------------------------------------

/// No members, not frozen.
pub open spec fn empty_roster() -> RosterModel {
    RosterModel { members: Map::empty(), frozen: false }
}

/// Whether a key may vouch for a joiner in a given state.
pub open spec fn may_add(cfg: ConfigModel, state: RosterModel, signer: Seq<u8>) -> bool {
    !state.frozen && (signer == cfg.originator_id || state.members.contains_key(signer))
}

/// The state after one authentic entry.
pub open spec fn apply(cfg: ConfigModel, state: RosterModel, e: EntryModel) -> RosterModel {
    match e.op {
        OpModel::Freeze { frozen, .. } => if e.signer == cfg.originator_id {
            RosterModel { frozen, ..state }
        } else {
            state
        },
        OpModel::Remove { node_id, .. } => if e.signer == cfg.originator_id {
            RosterModel { members: state.members.remove(node_id), ..state }
        } else {
            state
        },
        OpModel::Add { node_id, hostname, virtual_ip, .. } => if may_add(cfg, state, e.signer) {
            RosterModel {
                members: state.members.insert(
                    node_id,
                    MemberModel { hostname, virtual_ip, added_by: e.signer },
                ),
                ..state
            }
        } else {
            state
        },
    }
}

/// An entry filed under its content address.
pub struct Filed {
    pub id: Seq<u8>,
    pub entry: EntryModel,
}

/// The state after a whole history of authentic entries.
pub open spec fn replay(cfg: ConfigModel, h: Seq<Filed>) -> RosterModel
    decreases h.len(),
{
    if h.len() == 0 {
        empty_roster()
    } else {
        apply(cfg, replay(cfg, h.drop_last()), h.last().entry)
    }
}

// ---------------------------------------------------------------------------
// Which entries count, and in what order
// ---------------------------------------------------------------------------

/// An entry together with its content address and the verdict on its signature.
pub struct Vetted<'a> {
    pub entry: &'a Entry,
    pub id: Id,
    pub verified: bool,
}

/// What a [`Vetted`] says.
pub struct VettedModel {
    pub entry: EntryModel,
    pub id: Seq<u8>,
    pub verified: bool,
}

impl<'a> View for Vetted<'a> {
    type V = VettedModel;

    open spec fn view(&self) -> VettedModel {
        VettedModel { entry: self.entry@, id: self.id@, verified: self.verified }
    }
}

/// What each of a list of vetted entries says.
pub open spec fn vetted_models(s: Seq<Vetted>) -> Seq<VettedModel> {
    Seq::new(s.len(), |i: int| s[i]@)
}

/// What each of a list of entries says.
pub open spec fn entry_models(s: Seq<Entry>) -> Seq<EntryModel> {
    Seq::new(s.len(), |i: int| s[i]@)
}

/// An entry with its own content address and its own signature's verdict.
pub open spec fn vet(e: EntryModel) -> VettedModel {
    VettedModel { entry: e, id: e.id(), verified: e.verified() }
}

/// Each of a list of entries, vetted.
pub open spec fn vet_all(s: Seq<EntryModel>) -> Seq<VettedModel> {
    Seq::new(s.len(), |i: int| vet(s[i]))
}

/// Whether an entry counts for a network: it is meant for it, and authentic.
pub open spec fn accepted(cfg: ConfigModel, v: VettedModel) -> bool {
    v.entry.network_id == cfg.network_id && v.verified
}

/// The entries that count, by content address; where an address comes up again,
/// the later entry stands.
pub open spec fn retained(cfg: ConfigModel, s: Seq<VettedModel>) -> Map<Seq<u8>, EntryModel>
    decreases s.len(),
{
    if s.len() == 0 {
        Map::empty()
    } else {
        let m = retained(cfg, s.drop_last());
        if accepted(cfg, s.last()) {
            m.insert(s.last().id, s.last().entry)
        } else {
            m
        }
    }
}

/// The order of byte strings: shorter first, then byte by byte from the left.
pub open spec fn id_less(a: Seq<u8>, b: Seq<u8>) -> bool {
    a.len() < b.len() || (a.len() == b.len() && ids::rank(a) < ids::rank(b))
}

/// The order of a history: by logical timestamp, then content address.
pub open spec fn precedes(a: Filed, b: Filed) -> bool {
    a.entry.op.ts() < b.entry.op.ts() || (a.entry.op.ts() == b.entry.op.ts() && id_less(a.id, b.id))
}

/// Whether each entry of a sequence precedes all that follow it.
pub open spec fn in_order(h: Seq<Filed>) -> bool {
    forall|i: int, j: int| 0 <= i < j < h.len() ==> precedes(#[trigger] h[i], #[trigger] h[j])
}

/// Whether the sequence files an entry under `id`.
pub open spec fn files(h: Seq<Filed>, id: Seq<u8>) -> bool {
    exists|i: int| 0 <= i < h.len() && (#[trigger] h[i]).id == id
}

/// Whether `h` lists the entries of `m`, each once, in order.
pub open spec fn is_history(m: Map<Seq<u8>, EntryModel>, h: Seq<Filed>) -> bool {
    &&& in_order(h)
    &&& forall|i: int|
        0 <= i < h.len() ==> m.contains_key((#[trigger] h[i]).id) && m[h[i].id] == h[i].entry
    &&& forall|k: Seq<u8>| #[trigger] m.contains_key(k) ==> files(h, k)
}

/// The entries of `m` in order.
pub open spec fn history(m: Map<Seq<u8>, EntryModel>) -> Seq<Filed> {
    choose|h: Seq<Filed>| is_history(m, h)
}

/// The state that a list of vetted entries folds into.
pub open spec fn folded(cfg: ConfigModel, s: Seq<VettedModel>) -> RosterModel {
    replay(cfg, history(retained(cfg, s)))
}

/// The state that a list of entries folds into.
pub open spec fn built(cfg: ConfigModel, s: Seq<EntryModel>) -> RosterModel {
    folded(cfg, vet_all(s))
}

// ---------------------------------------------------------------------------
// There is exactly one history
// ---------------------------------------------------------------------------

/// Of two different byte strings one is less than the other.
pub proof fn lemma_id_less_total(a: Seq<u8>, b: Seq<u8>)
    ensures
        a == b || id_less(a, b) || id_less(b, a),
{
    if a.len() == b.len() && ids::rank(a) == ids::rank(b) {
        ids::lemma_rank_injective(a, b);
    }
}

/// Without its last entry, a history is the history of what remains.
pub proof fn lemma_history_drop_last(m: Map<Seq<u8>, EntryModel>, h: Seq<Filed>)
    requires
        is_history(m, h),
        h.len() > 0,
    ensures
        is_history(m.remove(h.last().id), h.drop_last()),
{
    let n = m.remove(h.last().id);
    let g = h.drop_last();
    assert forall|i: int| 0 <= i < g.len() implies n.contains_key((#[trigger] g[i]).id) && n[g[i].id]
        == g[i].entry by {
        assert(g[i] == h[i]);
        assert(precedes(h[i], h[h.len() - 1]));
        assert(m[h[h.len() - 1].id] == h[h.len() - 1].entry);
    }
    assert forall|k: Seq<u8>| #[trigger] n.contains_key(k) implies files(g, k) by {
        assert(m.contains_key(k));
        let i = choose|i: int| 0 <= i < h.len() && (#[trigger] h[i]).id == k;
        assert(i != h.len() - 1);
        assert(g[i].id == k);
    }
}

/// A map has no two histories.
pub proof fn lemma_history_unique(m: Map<Seq<u8>, EntryModel>, g: Seq<Filed>, h: Seq<Filed>)
    requires
        is_history(m, g),
        is_history(m, h),
    ensures
        g == h,
    decreases g.len(),
{
    if g.len() == 0 {
        if h.len() > 0 {
            assert(m.contains_key(h[0].id));
            assert(files(g, h[0].id));
        }
        assert(g =~= h);
    } else {
        assert(m.contains_key(g[0].id));
        assert(files(h, g[0].id));
        assert(h.len() > 0);
        let a = g[g.len() - 1];
        let b = h[h.len() - 1];
        assert(m.contains_key(a.id) && m[a.id] == a.entry);
        assert(m.contains_key(b.id) && m[b.id] == b.entry);
        assert(files(h, a.id));
        assert(files(g, b.id));
        let i = choose|i: int| 0 <= i < h.len() && (#[trigger] h[i]).id == a.id;
        let j = choose|j: int| 0 <= j < g.len() && (#[trigger] g[j]).id == b.id;
        assert(h[i] == a);
        assert(g[j] == b);
        if i < h.len() - 1 {
            assert(precedes(h[i], h[h.len() - 1]));
            assert(j < g.len() - 1);
            assert(precedes(g[j], g[g.len() - 1]));
            assert(false);
        }
        assert(a == b);
        lemma_history_drop_last(m, g);
        lemma_history_drop_last(m, h);
        lemma_history_unique(m.remove(a.id), g.drop_last(), h.drop_last());
        assert(g =~= g.drop_last().push(a));
        assert(h =~= h.drop_last().push(b));
    }
}

/// An entry with a content address of its own has a place in an ordered
/// sequence.
pub proof fn lemma_place(h: Seq<Filed>, x: Filed) -> (p: int)
    requires
        in_order(h),
        forall|i: int| 0 <= i < h.len() ==> (#[trigger] h[i]).id != x.id,
    ensures
        0 <= p <= h.len(),
        forall|i: int| 0 <= i < p ==> precedes(#[trigger] h[i], x),
        forall|i: int| p <= i < h.len() ==> precedes(x, #[trigger] h[i]),
    decreases h.len(),
{
    if h.len() == 0 {
        0
    } else {
        let last = h[h.len() - 1];
        lemma_id_less_total(last.id, x.id);
        if precedes(last, x) {
            assert forall|i: int| 0 <= i < h.len() implies precedes(#[trigger] h[i], x) by {
                if i < h.len() - 1 {
                    assert(precedes(h[i], h[h.len() - 1]));
                }
            }
            h.len() as int
        } else {
            let g = h.drop_last();
            let p = lemma_place(g, x);
            assert forall|i: int| 0 <= i < p implies precedes(#[trigger] h[i], x) by {
                assert(precedes(g[i], x));
            }
            assert forall|i: int| p <= i < h.len() implies precedes(x, #[trigger] h[i]) by {
                if i < h.len() - 1 {
                    assert(precedes(x, g[i]));
                }
            }
            p
        }
    }
}

/// Putting an entry in its place keeps a sequence in order.
proof fn lemma_insert_in_order(h: Seq<Filed>, x: Filed, p: int)
    requires
        in_order(h),
        0 <= p <= h.len(),
        forall|i: int| 0 <= i < p ==> precedes(#[trigger] h[i], x),
        forall|i: int| p <= i < h.len() ==> precedes(x, #[trigger] h[i]),
    ensures
        in_order(h.insert(p, x)),
{
    let g = h.insert(p, x);
    assert forall|i: int, j: int| 0 <= i < j < g.len() implies precedes(
        #[trigger] g[i],
        #[trigger] g[j],
    ) by {
        let bi = if i < p { i } else { i - 1 };
        let bj = if j < p { j } else { j - 1 };
        if i != p && j != p {
            assert(precedes(h[bi], h[bj]));
        } else if i == p {
            assert(precedes(x, h[bj]));
        } else {
            assert(precedes(h[bi], x));
        }
    }
}

/// A history with one more entry in its place is the history of the map with
/// that entry.
pub proof fn lemma_history_insert(m: Map<Seq<u8>, EntryModel>, h: Seq<Filed>, x: Filed, p: int)
    requires
        is_history(m, h),
        !m.contains_key(x.id),
        0 <= p <= h.len(),
        forall|i: int| 0 <= i < p ==> precedes(#[trigger] h[i], x),
        forall|i: int| p <= i < h.len() ==> precedes(x, #[trigger] h[i]),
    ensures
        is_history(m.insert(x.id, x.entry), h.insert(p, x)),
{
    let n = m.insert(x.id, x.entry);
    let g = h.insert(p, x);
    lemma_insert_in_order(h, x, p);
    assert forall|i: int| 0 <= i < g.len() implies n.contains_key((#[trigger] g[i]).id) && n[g[i].id]
        == g[i].entry by {
        if i < p {
            assert(g[i] == h[i]);
        } else if i > p {
            assert(g[i] == h[i - 1]);
        }
    }
    assert forall|k: Seq<u8>| #[trigger] n.contains_key(k) implies files(g, k) by {
        if k == x.id {
            assert(g[p].id == k);
        } else {
            assert(m.contains_key(k));
            let i = choose|i: int| 0 <= i < h.len() && (#[trigger] h[i]).id == k;
            if i < p {
                assert(g[i].id == k);
            } else {
                assert(g[i + 1].id == k);
            }
        }
    }
}

/// A finite map has a history.
pub proof fn lemma_history_exists(m: Map<Seq<u8>, EntryModel>)
    requires
        m.dom().finite(),
    ensures
        is_history(m, history(m)),
    decreases m.dom().len(),
{
    if m.dom().len() == 0 {
        let h = Seq::<Filed>::empty();
        assert(is_history(m, h));
    } else {
        let k = m.dom().choose();
        let n = m.remove(k);
        lemma_history_exists(n);
        let h = history(n);
        let x = Filed { id: k, entry: m[k] };
        let p = lemma_place(h, x);
        lemma_history_insert(n, h, x, p);
        assert(n.insert(k, m[k]) =~= m);
        assert(is_history(m, h.insert(p, x)));
    }
}

/// Only finitely many entries count.
pub proof fn lemma_retained_finite(cfg: ConfigModel, s: Seq<VettedModel>)
    ensures
        retained(cfg, s).dom().finite(),
    decreases s.len(),
{
    if s.len() > 0 {
        lemma_retained_finite(cfg, s.drop_last());
    }
}

/// What a list of vetted entries folds into is the replay of a history.
pub proof fn lemma_folded_history(cfg: ConfigModel, s: Seq<VettedModel>)
    ensures
        is_history(retained(cfg, s), history(retained(cfg, s))),
{
    lemma_retained_finite(cfg, s);
    lemma_history_exists(retained(cfg, s));
}

/// Whichever sequence lists the entries that count, each once and in order: its
/// replay is what a list of vetted entries folds into.
pub proof fn lemma_folded(cfg: ConfigModel, s: Seq<VettedModel>, h: Seq<Filed>)
    requires
        is_history(retained(cfg, s), h),
    ensures
        folded(cfg, s) == replay(cfg, h),
{
    lemma_folded_history(cfg, s);
    lemma_history_unique(retained(cfg, s), h, history(retained(cfg, s)));
}

// ---------------------------------------------------------------------------
// Building
// ---------------------------------------------------------------------------

/// The vetted entry as filed.
pub open spec fn filed(v: VettedModel) -> Filed {
    Filed { id: v.id, entry: v.entry }
}

/// The vetted entries at the given positions, as filed.
spec fn filed_at(s: Seq<VettedModel>, at: Seq<usize>) -> Seq<Filed> {
    Seq::new(at.len(), |i: int| filed(s[at[i] as int]))
}

/// Whether `x` comes before `y` in a history.
fn comes_before(x: &Vetted, y: &Vetted) -> (r: bool)
    ensures
        r == precedes(filed(x@), filed(y@)),
{
    let tx: u64 = x.entry.op.ts();
    let ty: u64 = y.entry.op.ts();
    tx < ty || (tx == ty && id_before(&x.id, &y.id))
}

/// The positions of the entries that count, by content address.
fn keep(cfg: &Config, vetted: &[Vetted]) -> (r: IdMap<usize>)
    ensures
        r.wf(),
        r@.dom() == retained(cfg@, vetted_models(vetted@)).dom(),
        forall|k: Seq<u8>| #[trigger]
            r@.contains_key(k) ==> {
                &&& r@[k] < vetted@.len()
                &&& vetted@[r@[k] as int]@.id == k
                &&& vetted@[r@[k] as int]@.entry == retained(cfg@, vetted_models(vetted@))[k]
            },
{
    let mut kept: IdMap<usize> = IdMap::new();
    let ghost all = vetted_models(vetted@);
    let mut i: usize = 0;
    assert(all.take(0) =~= Seq::<VettedModel>::empty());
    assert(kept@.dom() =~= retained(cfg@, all.take(0)).dom());
    while i < vetted.len()
        invariant
            i <= vetted@.len(),
            all == vetted_models(vetted@),
            kept.wf(),
            kept@.dom() == retained(cfg@, all.take(i as int)).dom(),
            forall|k: Seq<u8>| #[trigger]
                kept@.contains_key(k) ==> {
                    &&& kept@[k] < vetted@.len()
                    &&& vetted@[kept@[k] as int]@.id == k
                    &&& vetted@[kept@[k] as int]@.entry == retained(cfg@, all.take(i as int))[k]
                },
        decreases vetted@.len() - i,
    {
        let v = &vetted[i];
        let ghost before = kept@;
        let ghost old_map = retained(cfg@, all.take(i as int));
        if same_id(&v.entry.network_id, &cfg.network_id) && v.verified {
            kept.insert(v.id, i);
        }
        proof {
            let next = all.take(i + 1);
            assert(next.drop_last() =~= all.take(i as int));
            assert(next.last() == v@);
            assert(kept@.dom() =~= retained(cfg@, next).dom());
            assert forall|k: Seq<u8>| #[trigger] kept@.contains_key(k) implies {
                &&& kept@[k] < vetted@.len()
                &&& vetted@[kept@[k] as int]@.id == k
                &&& vetted@[kept@[k] as int]@.entry == retained(cfg@, next)[k]
            } by {
                if accepted(cfg@, v@) && k == v@.id {
                } else {
                    assert(before.contains_key(k));
                }
            }
        }
        i = i + 1;
    }
    assert(all.take(i as int) =~= all);
    kept
}

/// Where the entry at `x` belongs among the ordered ones.
fn place(vetted: &[Vetted], ordered: &Vec<usize>, x: usize) -> (p: usize)
    requires
        x < vetted@.len(),
        forall|i: int| 0 <= i < ordered@.len() ==> #[trigger] ordered@[i] < vetted@.len(),
        in_order(filed_at(vetted_models(vetted@), ordered@)),
        forall|i: int|
            0 <= i < ordered@.len() ==> (#[trigger] filed_at(vetted_models(vetted@), ordered@)[i]).id
                != vetted@[x as int]@.id,
    ensures
        p <= ordered@.len(),
        forall|i: int|
            0 <= i < p ==> precedes(
                #[trigger] filed_at(vetted_models(vetted@), ordered@)[i],
                filed(vetted@[x as int]@),
            ),
        forall|i: int|
            p <= i < ordered@.len() ==> precedes(
                filed(vetted@[x as int]@),
                #[trigger] filed_at(vetted_models(vetted@), ordered@)[i],
            ),
{
    let ghost h = filed_at(vetted_models(vetted@), ordered@);
    let ghost f = filed(vetted@[x as int]@);
    let mut lo: usize = 0;
    let mut hi: usize = ordered.len();
    while lo < hi
        invariant
            x < vetted@.len(),
            forall|i: int| 0 <= i < ordered@.len() ==> #[trigger] ordered@[i] < vetted@.len(),
            h == filed_at(vetted_models(vetted@), ordered@),
            f == filed(vetted@[x as int]@),
            in_order(h),
            forall|i: int| 0 <= i < h.len() ==> (#[trigger] h[i]).id != f.id,
            lo <= hi <= ordered@.len(),
            forall|i: int| 0 <= i < lo ==> precedes(#[trigger] h[i], f),
            forall|i: int| hi <= i < h.len() ==> precedes(f, #[trigger] h[i]),
        decreases hi - lo,
    {
        let mid: usize = lo + (hi - lo) / 2;
        let m: usize = ordered[mid];
        assert(h[mid as int] == filed(vetted@[m as int]@));
        if comes_before(&vetted[m], &vetted[x]) {
            assert forall|i: int| 0 <= i < mid + 1 implies precedes(#[trigger] h[i], f) by {
                if i < mid {
                    assert(precedes(h[i], h[mid as int]));
                }
            }
            lo = mid + 1;
        } else {
            proof {
                lemma_id_less_total(h[mid as int].id, f.id);
            }
            assert forall|i: int| mid <= i < h.len() implies precedes(f, #[trigger] h[i]) by {
                if i > mid {
                    assert(precedes(h[mid as int], h[i]));
                }
            }
            hi = mid;
        }
    }
    lo
}

/// The positions of the entries that count, in the order of the history.
fn order(cfg: &Config, vetted: &[Vetted]) -> (r: Vec<usize>)
    ensures
        forall|i: int| 0 <= i < r@.len() ==> #[trigger] r@[i] < vetted@.len(),
        filed_at(vetted_models(vetted@), r@) == history(retained(cfg@, vetted_models(vetted@))),
{
    let kept = keep(cfg, vetted);
    let items = kept.as_slice();
    let mut ordered: Vec<usize> = Vec::new();
    let ghost all = vetted_models(vetted@);
    let ghost full = retained(cfg@, all);
    let ghost mut part = Map::<Seq<u8>, EntryModel>::empty();
    proof {
        kept.lemma_items();
        assert forall|j: int| 0 <= j < items@.len() implies kept@.contains_key(#[trigger] items@[j].0@)
            && kept@[items@[j].0@] == items@[j].1 by {
            idmap::lemma_map_of_at(items@, j);
        }
        assert(is_history(part, filed_at(all, ordered@)));
    }
    let mut i: usize = 0;
    while i < items.len()
        invariant
            i <= items@.len(),
            all == vetted_models(vetted@),
            full == retained(cfg@, all),
            kept@.dom() == full.dom(),
            idmap::keys_ascend(items@),
            kept@ == idmap::map_of(items@),
            forall|j: int|
                0 <= j < items@.len() ==> kept@.contains_key(#[trigger] items@[j].0@)
                    && kept@[items@[j].0@] == items@[j].1,
            forall|k: Seq<u8>| #[trigger]
                kept@.contains_key(k) ==> {
                    &&& kept@[k] < vetted@.len()
                    &&& vetted@[kept@[k] as int]@.id == k
                    &&& vetted@[kept@[k] as int]@.entry == full[k]
                },
            forall|j: int| 0 <= j < ordered@.len() ==> #[trigger] ordered@[j] < vetted@.len(),
            is_history(part, filed_at(all, ordered@)),
            forall|k: Seq<u8>| #[trigger] part.contains_key(k) ==> full.contains_key(k) && part[k] == full[k],
            forall|j: int| 0 <= j < i ==> part.contains_key(#[trigger] items@[j].0@),
            forall|k: Seq<u8>| #[trigger]
                part.contains_key(k) ==> exists|j: int| 0 <= j < i && (#[trigger] items@[j]).0@ == k,
        decreases items@.len() - i,
    {
        let x: usize = items[i].1;
        let ghost k = items@[i as int].0@;
        let ghost h = filed_at(all, ordered@);
        assert(kept@.contains_key(k) && kept@[k] == x);
        assert(!part.contains_key(k)) by {
            if part.contains_key(k) {
                let j = choose|j: int| 0 <= j < i && (#[trigger] items@[j]).0@ == k;
                assert(ids::rank(items@[j].0@) < ids::rank(items@[i as int].0@));
            }
        }
        assert forall|j: int| 0 <= j < h.len() implies (#[trigger] h[j]).id != vetted@[x as int]@.id by {
            assert(part.contains_key(h[j].id));
        }
        let p: usize = place(vetted, &ordered, x);
        let ghost before = ordered@;
        let ghost f = filed(vetted@[x as int]@);
        ordered.insert(p, x);
        proof {
            lemma_history_insert(part, h, f, p as int);
            assert(filed_at(all, ordered@) =~= h.insert(p as int, f));
            let old_part = part;
            part = part.insert(f.id, f.entry);
            assert forall|c: Seq<u8>| #[trigger] part.contains_key(c) implies exists|j: int|
                0 <= j < i + 1 && (#[trigger] items@[j]).0@ == c by {
                if c == k {
                    assert(items@[i as int].0@ == c);
                } else {
                    assert(old_part.contains_key(c));
                }
            }
            assert forall|j: int| 0 <= j < ordered@.len() implies #[trigger] ordered@[j] < vetted@.len() by {
                if j < p {
                    assert(ordered@[j] == before[j]);
                } else if j > p {
                    assert(ordered@[j] == before[j - 1]);
                }
            }
        }
        i = i + 1;
    }
    proof {
        assert forall|k: Seq<u8>| full.contains_key(k) implies #[trigger] part.contains_key(k) by {
            assert(kept@.dom().contains(k));
            let j = choose|j: int| idmap::key_at(items@, j, k);
            assert(part.contains_key(items@[j].0@));
        }
        assert(part =~= full);
        lemma_folded_history(cfg@, all);
        lemma_history_unique(full, filed_at(all, ordered@), history(full));
    }
    ordered
}

/// The folded current state of the roster.
#[derive(Debug)]
pub struct Roster {
    members: IdMap<Member>,
    frozen: bool,
}

/// What members by id say.
spec fn member_models(m: Map<Seq<u8>, Member>) -> Map<Seq<u8>, MemberModel> {
    m.map_values(|x: Member| x@)
}

/// Apply one authentic entry to the state so far.
fn step(cfg: &Config, members: &mut IdMap<Member>, frozen: &mut bool, e: &Entry)
    requires
        old(members).wf(),
    ensures
        final(members).wf(),
        (RosterModel { members: member_models(final(members)@), frozen: *final(frozen) }) == apply(
            cfg@,
            RosterModel { members: member_models(old(members)@), frozen: *old(frozen) },
            e@,
        ),
{
    match &e.op {
        Op::Freeze { frozen: f, .. } => {
            if same_id(&e.signer, &cfg.originator_id) {
                *frozen = *f;
            }
        },
        Op::Remove { node_id, .. } => {
            if same_id(&e.signer, &cfg.originator_id) {
                members.remove(node_id);
                assert(member_models(members@) =~= member_models(old(members)@).remove(node_id@));
            }
        },
        Op::Add { node_id, hostname, virtual_ip, .. } => {
            // No adds while frozen, not even by the originator: the switch must
            // be flipped back first.
            if !*frozen && (same_id(&e.signer, &cfg.originator_id) || members.contains_key(&e.signer)) {
                let member = Member {
                    hostname: hostname.clone(),
                    virtual_ip: *virtual_ip,
                    added_by: e.signer,
                };
                members.insert(*node_id, member);
                assert(member_models(members@) =~= member_models(old(members)@).insert(
                    node_id@,
                    member@,
                ));
            }
        },
    }
}

impl View for Roster {
    type V = RosterModel;

    closed spec fn view(&self) -> RosterModel {
        RosterModel { members: member_models(self.members@), frozen: self.frozen }
    }
}

/// Whether a member holds host number `host` in the /24 of `subnet`.
pub open spec fn host_taken(members: Map<Seq<u8>, MemberModel>, subnet: Ipv4Addr, host: u8) -> bool {
    exists|k: Seq<u8>| #[trigger]
        members.contains_key(k) && members[k].virtual_ip.same_subnet(subnet) && members[k].virtual_ip.d
            == host
}

/// Whether every host address of a /24 that is given out belongs to some member.
pub open spec fn subnet_full(members: Map<Seq<u8>, MemberModel>, subnet: Ipv4Addr) -> bool {
    forall|h: u8| 2 <= h <= 254 ==> #[trigger] host_taken(members, subnet, h)
}

impl Roster {
    #[verifier::type_invariant]
    spec fn inv(self) -> bool {
        self.members.wf()
    }

    /// Fold a set of entries into the current membership, enforcing all role
    /// rules. Entries with bad signatures, the wrong network, or insufficient
    /// authority are silently dropped: a hostile writer cannot corrupt the
    /// outcome, only waste space.
    pub fn build(cfg: &Config, entries: &[Entry]) -> (r: Roster)
        ensures
            r@ == built(cfg@, entry_models(entries@)),
    {
        let mut vetted: Vec<Vetted> = Vec::new();
        let mut i: usize = 0;
        while i < entries.len()
            invariant
                i <= entries@.len(),
                vetted@.len() == i,
                forall|j: int| 0 <= j < i ==> (#[trigger] vetted@[j])@ == vet(entries@[j]@),
            decreases entries@.len() - i,
        {
            let e = &entries[i];
            vetted.push(Vetted { entry: e, id: e.id(), verified: e.verify_signature() });
            i = i + 1;
        }
        assert(vetted_models(vetted@) =~= vet_all(entry_models(entries@)));
        Roster::fold(cfg, vetted.as_slice())
    }

    /// Fold entries whose content addresses and signature verdicts are given.
    pub fn fold(cfg: &Config, vetted: &[Vetted]) -> (r: Roster)
        ensures
            r@ == folded(cfg@, vetted_models(vetted@)),
    {
        let ordered = order(cfg, vetted);
        let ghost h = history(retained(cfg@, vetted_models(vetted@)));
        let mut members: IdMap<Member> = IdMap::new();
        let mut frozen = false;
        let mut i: usize = 0;
        assert(member_models(members@) =~= Map::<Seq<u8>, MemberModel>::empty());
        assert(h.take(0) =~= Seq::<Filed>::empty());
        while i < ordered.len()
            invariant
                i <= ordered@.len(),
                forall|j: int| 0 <= j < ordered@.len() ==> #[trigger] ordered@[j] < vetted@.len(),
                h == filed_at(vetted_models(vetted@), ordered@),
                members.wf(),
                (RosterModel { members: member_models(members@), frozen }) == replay(
                    cfg@,
                    h.take(i as int),
                ),
            decreases ordered@.len() - i,
        {
            let at: usize = ordered[i];
            assert(h.take(i + 1).drop_last() =~= h.take(i as int));
            assert(h.take(i + 1).last().entry == vetted@[at as int].entry@);
            step(cfg, &mut members, &mut frozen, vetted[at].entry);
            i = i + 1;
        }
        assert(h.take(i as int) =~= h);
        Roster { members, frozen }
    }

    /// Whether `id` is a current member.
    pub fn is_member(&self, id: &Id) -> (r: bool)
        ensures
            r == self@.members.contains_key(id@),
    {
        proof {
            use_type_invariant(self);
        }
        self.members.contains_key(id)
    }

    /// The member with this id.
    pub fn member(&self, id: &Id) -> (r: Option<&Member>)
        ensures
            match r {
                Some(m) => self@.members.contains_key(id@) && m@ == self@.members[id@],
                None => !self@.members.contains_key(id@),
            },
    {
        proof {
            use_type_invariant(self);
        }
        self.members.get(id)
    }

    /// The members with their ids, in ascending id order.
    pub fn members(&self) -> (r: &[(Id, Member)])
        ensures
            idmap::keys_ascend(r@),
            idmap::map_of(r@).dom() == self@.members.dom(),
            forall|i: int| 0 <= i < r@.len() ==> self@.members[(#[trigger] r@[i]).0@] == r@[i].1@,
    {
        proof {
            use_type_invariant(self);
            self.members.lemma_items();
            assert forall|i: int| 0 <= i < self.members.items().len() implies self@.members[(
            #[trigger] self.members.items()[i]).0@] == self.members.items()[i].1@ by {
                idmap::lemma_map_of_at(self.members.items(), i);
            }
            assert(self@.members.dom() =~= self.members@.dom());
        }
        self.members.as_slice()
    }

    /// How many members there are.
    pub fn len(&self) -> (r: usize)
        ensures
            self@.members.dom().finite(),
            r == self@.members.len(),
    {
        proof {
            use_type_invariant(self);
            assert(self@.members.dom() =~= self.members@.dom());
        }
        self.members.len()
    }

    /// Whether there are no members.
    pub fn is_empty(&self) -> (r: bool)
        ensures
            r == (self@.members == Map::<Seq<u8>, MemberModel>::empty()),
    {
        let n: usize = self.len();
        proof {
            if n == 0 {
                assert(self@.members.dom() =~= Set::<Seq<u8>>::empty());
                assert(self@.members =~= Map::<Seq<u8>, MemberModel>::empty());
            }
        }
        n == 0
    }

    /// Whether the membership roll is frozen.
    pub fn frozen(&self) -> (r: bool)
        ensures
            r == self@.frozen,
    {
        self.frozen
    }

    /// Lowest unused host address in `subnet` (a /24), for assigning a joiner's
    /// virtual address at add-time. Returns `None` if the /24 is full.
    pub fn next_free_ip(&self, subnet: Ipv4Addr) -> (r: Option<Ipv4Addr>)
        ensures
            r matches Some(ip) ==> {
                &&& ip.same_subnet(subnet)
                &&& 2 <= ip.d <= 254
                &&& !host_taken(self@.members, subnet, ip.d)
                &&& forall|h: u8| 2 <= h < ip.d ==> #[trigger] host_taken(self@.members, subnet, h)
            },
            r is None ==> subnet_full(self@.members, subnet),
    {
        let members = self.members();
        let mut h: u8 = 2;
        while h <= 254
            invariant
                2 <= h <= 255,
                idmap::keys_ascend(members@),
                idmap::map_of(members@).dom() == self@.members.dom(),
                forall|i: int|
                    0 <= i < members@.len() ==> self@.members[(#[trigger] members@[i]).0@]
                        == members@[i].1@,
                forall|g: u8| 2 <= g < h ==> #[trigger] host_taken(self@.members, subnet, g),
            decreases 255 - h,
        {
            let mut taken = false;
            let mut i: usize = 0;
            while i < members.len()
                invariant
                    i <= members@.len(),
                    idmap::keys_ascend(members@),
                    idmap::map_of(members@).dom() == self@.members.dom(),
                    forall|j: int|
                        0 <= j < members@.len() ==> self@.members[(#[trigger] members@[j]).0@]
                            == members@[j].1@,
                    taken ==> host_taken(self@.members, subnet, h),
                    !taken ==> forall|j: int|
                        0 <= j < i ==> !((#[trigger] members@[j]).1.virtual_ip.same_subnet(subnet)
                            && members@[j].1.virtual_ip.d == h),
                decreases members@.len() - i,
            {
                let ip = members[i].1.virtual_ip;
                if ip.a == subnet.a && ip.b == subnet.b && ip.c == subnet.c && ip.d == h {
                    taken = true;
                    proof {
                        idmap::lemma_map_of_at(members@, i as int);
                        assert(self@.members.dom().contains(members@[i as int].0@));
                        assert(self@.members.contains_key(members@[i as int].0@));
                    }
                }
                i = i + 1;
            }
            if !taken {
                proof {
                    if host_taken(self@.members, subnet, h) {
                        let k = choose|k: Seq<u8>| #[trigger]
                            self@.members.contains_key(k) && self@.members[k].virtual_ip.same_subnet(
                                subnet,
                            ) && self@.members[k].virtual_ip.d == h;
                        assert(idmap::map_of(members@).dom().contains(k));
                        let j = choose|j: int| idmap::key_at(members@, j, k);
                        assert(self@.members[members@[j].0@] == members@[j].1@);
                    }
                }
                return Some(Ipv4Addr::new(subnet.a, subnet.b, subnet.c, h));
            }
            h = h + 1;
        }
        None
    }
}

impl Clone for Member {
    fn clone(&self) -> (r: Member)
        ensures
            r@ == self@,
    {
        Member {
            hostname: self.hostname.clone(),
            virtual_ip: self.virtual_ip,
            added_by: self.added_by,
        }
    }
}

impl Clone for Roster {
    fn clone(&self) -> (r: Roster)
        ensures
            r@ == self@,
    {
        let items = self.members.as_slice();
        let mut members: IdMap<Member> = IdMap::new();
        let mut i: usize = 0;
        proof {
            use_type_invariant(self);
            self.members.lemma_items();
        }
        while i < items.len()
            invariant
                i <= items@.len(),
                idmap::keys_ascend(items@),
                self.members@ == idmap::map_of(items@),
                members.wf(),
                forall|j: int|
                    0 <= j < i ==> members@.contains_key((#[trigger] items@[j]).0@)
                        && members@[items@[j].0@]@ == items@[j].1@,
                forall|k: Seq<u8>| #[trigger]
                    members@.contains_key(k) ==> exists|j: int| idmap::key_at(items@, j, k),
            decreases items@.len() - i,
        {
            let ghost before = members@;
            members.insert(items[i].0, items[i].1.clone());
            proof {
                assert(idmap::key_at(items@, i as int, items@[i as int].0@));
                assert forall|j: int| 0 <= j < i + 1 implies members@.contains_key(
                    (#[trigger] items@[j]).0@,
                ) && members@[items@[j].0@]@ == items@[j].1@ by {
                    if j < i {
                        assert(ids::rank(items@[j].0@) < ids::rank(items@[i as int].0@));
                    }
                }
            }
            i = i + 1;
        }
        proof {
            assert forall|k: Seq<u8>| self.members@.contains_key(k) implies #[trigger] members@.contains_key(
                k,
            ) && members@[k]@ == self.members@[k]@ by {
                let j = choose|j: int| idmap::key_at(items@, j, k);
                idmap::lemma_map_of_at(items@, j);
            }
            assert(member_models(members@) =~= member_models(self.members@));
        }
        Roster { members, frozen: self.frozen }
    }
}

impl Default for Roster {
    /// No members, not frozen.
    fn default() -> (r: Roster)
        ensures
            r@ == empty_roster(),
    {
        let members: IdMap<Member> = IdMap::new();
        assert(member_models(members@) =~= Map::<Seq<u8>, MemberModel>::empty());
        Roster { members, frozen: false }
    }
}

} // verus!
