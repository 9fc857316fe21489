//! What the role rules add up to.
//!
//! The first laws speak of a single entry, the next of whole histories, and those
//! after them of what a roster is built into from an arbitrary pile of entries. The
//! last ones say what timestamps do to the outcome, and how a roster reads.

use vstd::prelude::*;

use crate::crypto::ed25519_accepts;
use crate::entry;
use crate::entry::{Entry, EntryModel, Op, OpModel};
use crate::idmap;
use crate::ids;
use crate::ids::Id;
use crate::roster;
use crate::roster::{
    Config, ConfigModel, Filed, Member, MemberModel, Roster, RosterModel, Vetted, VettedModel,
};

verus! {

// ---------------------------------------------------------------------------
// One entry
// ---------------------------------------------------------------------------

/// An entry of a key that is neither the originator nor a current member
/// changes nothing.
pub proof fn law_outsider_is_powerless(cfg: ConfigModel, state: RosterModel, e: EntryModel)
    requires
        e.signer != cfg.originator_id,
        !state.members.contains_key(e.signer),
    ensures
        roster::apply(cfg, state, e) == state,
{
}

/// Nobody but the originator can take a member out, change whether the roster
/// is frozen, or have any effect with a `Remove` or a `Freeze`.
pub proof fn law_only_originator_removes_and_freezes(cfg: ConfigModel, state: RosterModel, e: EntryModel)
    requires
        e.signer != cfg.originator_id,
    ensures
        roster::apply(cfg, state, e).frozen == state.frozen,
        state.members.dom().subset_of(roster::apply(cfg, state, e).members.dom()),
        !(e.op is Add) ==> roster::apply(cfg, state, e) == state,
{
}

/// While the roster is not frozen, the originator and every current member can
/// admit a device; all other members stay as they were.
pub proof fn law_member_admits(cfg: ConfigModel, state: RosterModel, e: EntryModel)
    requires
        e.op is Add,
        !state.frozen,
        e.signer == cfg.originator_id || state.members.contains_key(e.signer),
    ensures
        roster::apply(cfg, state, e).members == state.members.insert(
            e.op->Add_node_id,
            MemberModel {
                hostname: e.op->hostname,
                virtual_ip: e.op->virtual_ip,
                added_by: e.signer,
            },
        ),
        roster::apply(cfg, state, e).frozen == state.frozen,
{
}

/// A `Remove` of the originator takes the device out, and only that device.
pub proof fn law_originator_removes(cfg: ConfigModel, state: RosterModel, e: EntryModel)
    requires
        e.op is Remove,
        e.signer == cfg.originator_id,
    ensures
        roster::apply(cfg, state, e).members == state.members.remove(e.op->Remove_node_id),
        !roster::apply(cfg, state, e).members.contains_key(e.op->Remove_node_id),
        roster::apply(cfg, state, e).frozen == state.frozen,
{
}

/// A `Freeze` of the originator sets the switch and leaves the members alone.
pub proof fn law_originator_freezes(cfg: ConfigModel, state: RosterModel, e: EntryModel)
    requires
        e.op is Freeze,
        e.signer == cfg.originator_id,
    ensures
        roster::apply(cfg, state, e).frozen == e.op->frozen,
        roster::apply(cfg, state, e).members == state.members,
{
}

// ---------------------------------------------------------------------------
// Histories
// ---------------------------------------------------------------------------

/// One more entry after a history.
proof fn lemma_replay_push(cfg: ConfigModel, h: Seq<Filed>, x: Filed)
    ensures
        roster::replay(cfg, h.push(x)) == roster::apply(cfg, roster::replay(cfg, h), x.entry),
{
    assert(h.push(x).drop_last() =~= h);
}

/// The last entry of two histories put together is the last of the second.
proof fn lemma_replay_join(cfg: ConfigModel, g: Seq<Filed>, h: Seq<Filed>)
    requires
        h.len() > 0,
    ensures
        roster::replay(cfg, g + h) == roster::apply(
            cfg,
            roster::replay(cfg, g + h.drop_last()),
            h.last().entry,
        ),
{
    assert((g + h).drop_last() =~= g + h.drop_last());
    assert((g + h).last() == h.last());
}

/// Whether an entry is the originator's order to unfreeze.
pub open spec fn unfreezes(cfg: ConfigModel, e: EntryModel) -> bool {
    e.signer == cfg.originator_id && (e.op matches OpModel::Freeze { frozen, .. } && !frozen)
}

/// Once frozen, the roster stays frozen until the originator unfreezes it, and
/// until then whoever is a member was one already, on the same terms.
pub proof fn law_freeze_blocks_adds(cfg: ConfigModel, before: Seq<Filed>, after: Seq<Filed>)
    requires
        roster::replay(cfg, before).frozen,
        forall|i: int| 0 <= i < after.len() ==> !unfreezes(cfg, (#[trigger] after[i]).entry),
    ensures
        roster::replay(cfg, before + after).frozen,
        forall|k: Seq<u8>| #[trigger]
            roster::replay(cfg, before + after).members.contains_key(k) ==> {
                &&& roster::replay(cfg, before).members.contains_key(k)
                &&& roster::replay(cfg, before + after).members[k] == roster::replay(
                    cfg,
                    before,
                ).members[k]
            },
    decreases after.len(),
{
    if after.len() == 0 {
        assert(before + after =~= before);
    } else {
        assert(forall|i: int|
            0 <= i < after.drop_last().len() ==> #[trigger] after.drop_last()[i] == after[i]);
        law_freeze_blocks_adds(cfg, before, after.drop_last());
        lemma_replay_join(cfg, before, after);
        assert(after.last() == after[after.len() - 1]);
        let s = roster::replay(cfg, before + after.drop_last());
        assert forall|k: Seq<u8>| #[trigger]
            roster::replay(cfg, before + after).members.contains_key(k) implies {
            &&& roster::replay(cfg, before).members.contains_key(k)
            &&& roster::replay(cfg, before + after).members[k] == roster::replay(cfg, before).members[k]
        } by {
            assert(s.members.contains_key(k));
        }
    }
}

/// Whether an entry is an `Add` of `k`.
pub open spec fn adds(e: EntryModel, k: Seq<u8>) -> bool {
    e.op matches OpModel::Add { node_id, .. } && node_id == k
}

/// The entries of a history that `k` did not sign.
pub open spec fn unsigned_by(h: Seq<Filed>, k: Seq<u8>) -> Seq<Filed> {
    h.filter(|f: Filed| f.entry.signer != k)
}

/// A key that is no member (it was removed, or never was one) cannot forge its
/// way back: as long as nobody else adds it, it stays out, and everything it
/// signs counts for nothing.
pub proof fn law_removed_member_cannot_forge(
    cfg: ConfigModel,
    before: Seq<Filed>,
    after: Seq<Filed>,
    k: Seq<u8>,
)
    requires
        k != cfg.originator_id,
        !roster::replay(cfg, before).members.contains_key(k),
        forall|i: int|
            0 <= i < after.len() && adds((#[trigger] after[i]).entry, k) ==> after[i].entry.signer == k,
    ensures
        !roster::replay(cfg, before + after).members.contains_key(k),
        roster::replay(cfg, before + after) == roster::replay(cfg, before + unsigned_by(after, k)),
    decreases after.len(),
{
    let p = |f: Filed| f.entry.signer != k;
    if after.len() == 0 {
        assert(before + after =~= before);
        assert(unsigned_by(after, k) =~= after);
    } else {
        let rest = after.drop_last();
        assert(forall|i: int| 0 <= i < rest.len() ==> #[trigger] rest[i] == after[i]);
        law_removed_member_cannot_forge(cfg, before, rest, k);
        lemma_replay_join(cfg, before, after);
        assert(after.last() == after[after.len() - 1]);
        assert(unsigned_by(after, k) == if p(after.last()) {
            rest.filter(p).push(after.last())
        } else {
            rest.filter(p)
        }) by {
            reveal(Seq::filter);
        }
        if after.last().entry.signer != k {
            let kept = rest.filter(p);
            assert(before + kept.push(after.last()) =~= (before + kept).push(after.last()));
            lemma_replay_push(cfg, before + kept, after.last());
        }
    }
}

/// Whether the entry at `i` is what made `k` the member that it is: an `Add` of
/// `k` with these terms, by a key that was entitled to it at that point, with no
/// removal of `k` by the originator since.
pub open spec fn vouched_at(cfg: ConfigModel, h: Seq<Filed>, i: int, k: Seq<u8>, m: MemberModel) -> bool {
    &&& 0 <= i < h.len()
    &&& adds(h[i].entry, k)
    &&& h[i].entry.op->hostname == m.hostname
    &&& h[i].entry.op->virtual_ip == m.virtual_ip
    &&& h[i].entry.signer == m.added_by
    &&& roster::may_add(cfg, roster::replay(cfg, h.take(i)), m.added_by)
    &&& forall|j: int|
        i < j < h.len() ==> !((#[trigger] h[j]).entry.signer == cfg.originator_id && (h[j].entry.op matches
            OpModel::Remove { node_id, .. } && node_id == k))
}

/// Every member was vouched for: its terms come from an entry of a key that was
/// the originator or itself a member at that point, and it was not removed since.
pub proof fn law_every_member_was_vouched_for(cfg: ConfigModel, h: Seq<Filed>, k: Seq<u8>)
    requires
        roster::replay(cfg, h).members.contains_key(k),
    ensures
        exists|i: int| #[trigger] vouched_at(cfg, h, i, k, roster::replay(cfg, h).members[k]),
    decreases h.len(),
{
    let n = h.len() - 1;
    let rest = h.drop_last();
    let s = roster::replay(cfg, rest);
    let m = roster::replay(cfg, h).members[k];
    let e = h.last().entry;
    assert(h.take(n) =~= rest);
    if adds(e, k) && roster::may_add(cfg, s, e.signer) {
        assert(vouched_at(cfg, h, n, k, m));
    } else {
        assert(s.members.contains_key(k) && s.members[k] == m);
        law_every_member_was_vouched_for(cfg, rest, k);
        let i = choose|i: int| #[trigger] vouched_at(cfg, rest, i, k, m);
        assert(h.take(i) =~= rest.take(i));
        assert(h[i] == rest[i]);
        assert forall|j: int| i < j < h.len() implies !((#[trigger] h[j]).entry.signer == cfg.originator_id
            && (h[j].entry.op matches OpModel::Remove { node_id, .. } && node_id == k)) by {
            if j < n {
                assert(h[j] == rest[j]);
            }
        }
        assert(vouched_at(cfg, h, i, k, m));
    }
}

// ---------------------------------------------------------------------------
// Piles of entries
// ---------------------------------------------------------------------------

/// Whether an entry counts for a network.
pub open spec fn counts(cfg: ConfigModel, e: EntryModel) -> bool {
    roster::accepted(cfg, roster::vet(e))
}

/// Whether no two different entries of `s` that count share a content address.
pub open spec fn collision_free(cfg: ConfigModel, s: Seq<EntryModel>) -> bool {
    forall|e: EntryModel, f: EntryModel|
        s.contains(e) && s.contains(f) && counts(cfg, e) && counts(cfg, f) && #[trigger] e.id()
            == #[trigger] f.id() ==> e == f
}

/// An entry is retained under its content address exactly if it is there and
/// counts.
proof fn lemma_retained(cfg: ConfigModel, s: Seq<EntryModel>, k: Seq<u8>)
    ensures
        roster::retained(cfg, roster::vet_all(s)).contains_key(k) ==> {
            let e = roster::retained(cfg, roster::vet_all(s))[k];
            s.contains(e) && counts(cfg, e) && e.id() == k
        },
        (exists|e: EntryModel| #[trigger] s.contains(e) && counts(cfg, e) && e.id() == k)
            ==> roster::retained(cfg, roster::vet_all(s)).contains_key(k),
    decreases s.len(),
{
    let v = roster::vet_all(s);
    if s.len() > 0 {
        let rest = s.drop_last();
        assert(v.drop_last() =~= roster::vet_all(rest));
        assert(v.last() == roster::vet(s.last()));
        lemma_retained(cfg, rest, k);
        assert(s.contains(s.last())) by {
            assert(s[s.len() - 1] == s.last());
        }
        assert forall|e: EntryModel| #[trigger] rest.contains(e) implies s.contains(e) by {
            let i = rest.index_of(e);
            assert(s[i] == e);
        }
        if exists|e: EntryModel| #[trigger] s.contains(e) && counts(cfg, e) && e.id() == k {
            let e = choose|e: EntryModel| #[trigger] s.contains(e) && counts(cfg, e) && e.id() == k;
            let i = s.index_of(e);
            if i < rest.len() {
                assert(rest[i] == e);
                assert(rest.contains(e));
            }
        }
    }
}

/// Under collision freedom an entry that is there and counts is the one
/// retained under its content address.
proof fn lemma_retained_entry(cfg: ConfigModel, s: Seq<EntryModel>, e: EntryModel)
    requires
        collision_free(cfg, s),
        s.contains(e),
        counts(cfg, e),
    ensures
        roster::retained(cfg, roster::vet_all(s)).contains_key(e.id()),
        roster::retained(cfg, roster::vet_all(s))[e.id()] == e,
{
    lemma_retained(cfg, s, e.id());
    let f = roster::retained(cfg, roster::vet_all(s))[e.id()];
    assert(f.id() == e.id());
}

/// Every node that holds the same entries computes the same roster: neither the
/// order of the entries, nor repeats, nor entries that do not count make a
/// difference.
pub proof fn law_same_entries_same_roster(cfg: ConfigModel, s: Seq<EntryModel>, t: Seq<EntryModel>)
    requires
        forall|e: EntryModel| #[trigger] counts(cfg, e) ==> (s.contains(e) <==> t.contains(e)),
        collision_free(cfg, s),
    ensures
        roster::built(cfg, s) == roster::built(cfg, t),
{
    let ms = roster::retained(cfg, roster::vet_all(s));
    let mt = roster::retained(cfg, roster::vet_all(t));
    assert(collision_free(cfg, t));
    assert forall|k: Seq<u8>| #[trigger] ms.contains_key(k) implies mt.contains_key(k) && mt[k] == ms[k] by {
        lemma_retained(cfg, s, k);
        lemma_retained_entry(cfg, t, ms[k]);
    }
    assert forall|k: Seq<u8>| #[trigger] mt.contains_key(k) implies ms.contains_key(k) by {
        lemma_retained(cfg, t, k);
        lemma_retained_entry(cfg, s, mt[k]);
    }
    assert(ms =~= mt);
}

/// Entries with a bad signature or for another network are as good as absent.
pub proof fn law_entries_that_do_not_count_are_dropped(cfg: ConfigModel, s: Seq<EntryModel>)
    ensures
        roster::built(cfg, s) == roster::built(cfg, s.filter(|e: EntryModel| counts(cfg, e))),
{
    lemma_retained_filter(cfg, s);
}

proof fn lemma_retained_filter(cfg: ConfigModel, s: Seq<EntryModel>)
    ensures
        roster::retained(cfg, roster::vet_all(s)) == roster::retained(
            cfg,
            roster::vet_all(s.filter(|e: EntryModel| counts(cfg, e))),
        ),
    decreases s.len(),
{
    let p = |e: EntryModel| counts(cfg, e);
    reveal(Seq::filter);
    if s.len() == 0 {
        assert(s.filter(p) =~= s);
    } else {
        let rest = s.drop_last();
        lemma_retained_filter(cfg, rest);
        let v = roster::vet_all(s);
        assert(v.drop_last() =~= roster::vet_all(rest));
        assert(v.last() == roster::vet(s.last()));
        if p(s.last()) {
            let w = roster::vet_all(s.filter(p));
            assert(s.filter(p) =~= rest.filter(p).push(s.last()));
            assert(w.drop_last() =~= roster::vet_all(rest.filter(p)));
            assert(w.last() == roster::vet(s.last()));
        } else {
            assert(s.filter(p) =~= rest.filter(p));
        }
    }
}

/// Whether the signer of a filed entry is outside a set of keys.
pub open spec fn signed_outside(keys: Set<Seq<u8>>) -> spec_fn(Filed) -> bool {
    |f: Filed| !keys.contains(f.entry.signer)
}

/// The entries of a map that pass a test.
spec fn only(m: Map<Seq<u8>, EntryModel>, p: spec_fn(Filed) -> bool) -> Map<Seq<u8>, EntryModel> {
    Map::new(|k: Seq<u8>| m.contains_key(k) && p(Filed { id: k, entry: m[k] }), |k: Seq<u8>| m[k])
}

/// The history of the entries that pass a test is what passes of the history.
proof fn lemma_history_only(m: Map<Seq<u8>, EntryModel>, h: Seq<Filed>, p: spec_fn(Filed) -> bool)
    requires
        roster::is_history(m, h),
    ensures
        roster::is_history(only(m, p), h.filter(p)),
    decreases h.len(),
{
    reveal(Seq::filter);
    if h.len() == 0 {
        assert(h.filter(p) =~= h);
        assert forall|k: Seq<u8>| #[trigger] only(m, p).contains_key(k) implies roster::files(h, k) by {
            assert(m.contains_key(k));
        }
    } else {
        let last = h.last();
        let rest = h.drop_last();
        assert(last == h[h.len() - 1]);
        let n = m.remove(last.id);
        roster::lemma_history_drop_last(m, h);
        lemma_history_only(n, rest, p);
        let g = rest.filter(p);
        assert(m.contains_key(last.id) && m[last.id] == last.entry);
        if p(last) {
            assert(h.filter(p) =~= g.push(last));
            assert forall|i: int| 0 <= i < g.len() implies roster::precedes(#[trigger] g[i], last) by {
                assert(g.contains(g[i]));
                rest.lemma_filter_contains_rev(p, g[i]);
                let j = rest.index_of(g[i]);
                assert(h[j] == g[i]);
                assert(roster::precedes(h[j], h[h.len() - 1]));
            }
            roster::lemma_history_insert(only(n, p), g, last, g.len() as int);
            assert(g.insert(g.len() as int, last) =~= g.push(last));
            assert(only(n, p).insert(last.id, last.entry) =~= only(m, p));
        } else {
            assert(h.filter(p) =~= g);
            assert(only(n, p) =~= only(m, p));
        }
    }
}

/// Keys that nobody else ever adds never become members, and what they sign
/// makes no difference.
proof fn lemma_replay_outside(cfg: ConfigModel, h: Seq<Filed>, keys: Set<Seq<u8>>)
    requires
        !keys.contains(cfg.originator_id),
        forall|i: int|
            #![trigger h[i]]
            0 <= i < h.len() && !keys.contains(h[i].entry.signer) && h[i].entry.op is Add
                ==> !keys.contains(h[i].entry.op->Add_node_id),
    ensures
        roster::replay(cfg, h) == roster::replay(cfg, h.filter(signed_outside(keys))),
        forall|k: Seq<u8>| #[trigger]
            roster::replay(cfg, h).members.contains_key(k) ==> !keys.contains(k),
    decreases h.len(),
{
    let p = signed_outside(keys);
    reveal(Seq::filter);
    if h.len() == 0 {
        assert(h.filter(p) =~= h);
    } else {
        let rest = h.drop_last();
        assert(forall|i: int| 0 <= i < rest.len() ==> #[trigger] rest[i] == h[i]);
        lemma_replay_outside(cfg, rest, keys);
        assert(h.last() == h[h.len() - 1]);
        if p(h.last()) {
            assert(h.filter(p) =~= rest.filter(p).push(h.last()));
            lemma_replay_push(cfg, rest.filter(p), h.last());
        } else {
            assert(h.filter(p) =~= rest.filter(p));
        }
    }
}

/// A hostile writer cannot corrupt the outcome, only waste space. Say a pile `t`
/// holds all of `s` that counts, and whatever it holds beyond that is signed
/// with keys of the writer, which are not the originator's and which nobody
/// else adds. Then both piles build the same roster.
pub proof fn law_hostile_writer_changes_nothing(
    cfg: ConfigModel,
    s: Seq<EntryModel>,
    t: Seq<EntryModel>,
    keys: Set<Seq<u8>>,
)
    requires
        !keys.contains(cfg.originator_id),
        forall|e: EntryModel| #[trigger] counts(cfg, e) && s.contains(e) ==> t.contains(e),
        forall|e: EntryModel| #[trigger]
            counts(cfg, e) && t.contains(e) ==> s.contains(e) || keys.contains(e.signer),
        forall|e: EntryModel| #[trigger]
            counts(cfg, e) && s.contains(e) && !keys.contains(e.signer) && e.op is Add
                ==> !keys.contains(e.op->Add_node_id),
        collision_free(cfg, t),
    ensures
        roster::built(cfg, s) == roster::built(cfg, t),
        forall|k: Seq<u8>| #[trigger]
            roster::built(cfg, t).members.contains_key(k) ==> !keys.contains(k),
{
    let p = signed_outside(keys);
    let ms = roster::retained(cfg, roster::vet_all(s));
    let mt = roster::retained(cfg, roster::vet_all(t));
    assert(collision_free(cfg, s));
    roster::lemma_folded_history(cfg, roster::vet_all(s));
    roster::lemma_folded_history(cfg, roster::vet_all(t));
    let hs = roster::history(ms);
    let ht = roster::history(mt);
    assert forall|i: int|
        #![trigger hs[i]]
        0 <= i < hs.len() && !keys.contains(hs[i].entry.signer) && hs[i].entry.op is Add implies !keys.contains(
        hs[i].entry.op->Add_node_id,
    ) by {
        lemma_retained(cfg, s, hs[i].id);
        assert(counts(cfg, hs[i].entry));
    }
    assert forall|i: int|
        #![trigger ht[i]]
        0 <= i < ht.len() && !keys.contains(ht[i].entry.signer) && ht[i].entry.op is Add implies !keys.contains(
        ht[i].entry.op->Add_node_id,
    ) by {
        lemma_retained(cfg, t, ht[i].id);
        assert(counts(cfg, ht[i].entry));
    }
    lemma_replay_outside(cfg, hs, keys);
    lemma_replay_outside(cfg, ht, keys);
    lemma_history_only(ms, hs, p);
    lemma_history_only(mt, ht, p);
    assert forall|k: Seq<u8>| #[trigger] only(ms, p).contains_key(k) implies only(mt, p).contains_key(k) && mt[k] == ms[k] by {
        lemma_retained(cfg, s, k);
        assert(counts(cfg, ms[k]));
        lemma_retained_entry(cfg, t, ms[k]);
    }
    assert forall|k: Seq<u8>| #[trigger] only(mt, p).contains_key(k) implies only(ms, p).contains_key(k) by {
        lemma_retained(cfg, t, k);
        assert(counts(cfg, mt[k]));
        lemma_retained_entry(cfg, s, mt[k]);
    }
    assert(only(ms, p) =~= only(mt, p));
    roster::lemma_history_unique(
        only(ms, p),
        hs.filter(p),
        ht.filter(p),
    );
}

/// An entry of a pile, filed under its own content address.
pub open spec fn own_filed(e: EntryModel) -> Filed {
    Filed { id: e.id(), entry: e }
}

/// The newest entry is applied last: adding to a pile an entry that counts, with
/// a content address of its own and after all others that count, does to the
/// roster what the role rules say of that entry.
pub proof fn law_newest_entry_is_applied_last(cfg: ConfigModel, s: Seq<EntryModel>, e: EntryModel)
    requires
        counts(cfg, e),
        forall|f: EntryModel| #[trigger]
            counts(cfg, f) && s.contains(f) ==> roster::precedes(own_filed(f), own_filed(e)) && f.id()
                != e.id(),
    ensures
        roster::built(cfg, s.push(e)) == roster::apply(cfg, roster::built(cfg, s), e),
{
    let t = s.push(e);
    let ms = roster::retained(cfg, roster::vet_all(s));
    let vt = roster::vet_all(t);
    assert(vt.drop_last() =~= roster::vet_all(s));
    assert(vt.last() == roster::vet(e));
    roster::lemma_folded_history(cfg, roster::vet_all(s));
    let h = roster::history(ms);
    let x = own_filed(e);
    lemma_retained(cfg, s, e.id());
    if ms.contains_key(e.id()) {
        assert(counts(cfg, ms[e.id()]));
    }
    assert forall|i: int| 0 <= i < h.len() implies roster::precedes(#[trigger] h[i], x) by {
        lemma_retained(cfg, s, h[i].id);
        assert(counts(cfg, h[i].entry));
    }
    roster::lemma_history_insert(ms, h, x, h.len() as int);
    assert(h.insert(h.len() as int, x) =~= h.push(x));
    roster::lemma_folded(cfg, vt, h.push(x));
    lemma_replay_push(cfg, h, x);
}

/// The originator's first entry admits the first member.
pub proof fn law_genesis_member_is_admitted(cfg: ConfigModel, e: EntryModel)
    requires
        counts(cfg, e),
        e.signer == cfg.originator_id,
        e.op is Add,
    ensures
        roster::built(cfg, seq![e]) == (RosterModel {
            members: Map::<Seq<u8>, MemberModel>::empty().insert(
                e.op->Add_node_id,
                MemberModel {
                    hostname: e.op->hostname,
                    virtual_ip: e.op->virtual_ip,
                    added_by: e.signer,
                },
            ),
            frozen: false,
        }),
{
    let none = Seq::<EntryModel>::empty();
    law_nothing_from_nothing(cfg, none);
    law_newest_entry_is_applied_last(cfg, none, e);
    assert(none.push(e) =~= seq![e]);
}

/// A sequence filtered twice is filtered by both tests; where the second implies
/// the first, by the second alone.
proof fn lemma_filter_twice(h: Seq<Filed>, p: spec_fn(Filed) -> bool, q: spec_fn(Filed) -> bool)
    requires
        forall|f: Filed| #[trigger] q(f) ==> p(f),
    ensures
        h.filter(p).filter(q) == h.filter(q),
    decreases h.len(),
{
    reveal(Seq::filter);
    if h.len() > 0 {
        let rest = h.drop_last();
        lemma_filter_twice(rest, p, q);
        if p(h.last()) {
            let g = rest.filter(p).push(h.last());
            assert(h.filter(p) =~= g);
            assert(g.drop_last() =~= rest.filter(p));
        }
    }
}

/// Tests that agree on a sequence leave the same of it.
proof fn lemma_filter_agree(h: Seq<Filed>, p: spec_fn(Filed) -> bool, q: spec_fn(Filed) -> bool)
    requires
        forall|i: int| 0 <= i < h.len() ==> p(#[trigger] h[i]) == q(h[i]),
    ensures
        h.filter(p) == h.filter(q),
    decreases h.len(),
{
    reveal(Seq::filter);
    if h.len() > 0 {
        assert(forall|i: int| 0 <= i < h.drop_last().len() ==> #[trigger] h.drop_last()[i] == h[i]);
        lemma_filter_agree(h.drop_last(), p, q);
        assert(h.last() == h[h.len() - 1]);
    }
}

/// What passes a test of a pile.
proof fn lemma_pile_filter(s: Seq<EntryModel>, p: spec_fn(EntryModel) -> bool, e: EntryModel)
    ensures
        s.filter(p).contains(e) <==> s.contains(e) && p(e),
{
    if s.filter(p).contains(e) {
        s.lemma_filter_contains_rev(p, e);
        s.lemma_filter_pred(p, s.filter(p).index_of(e));
    }
    if s.contains(e) && p(e) {
        s.lemma_filter_contains(p, s.index_of(e));
    }
}

/// The history of a pile.
spec fn pile_history(cfg: ConfigModel, s: Seq<EntryModel>) -> Seq<Filed> {
    roster::history(roster::retained(cfg, roster::vet_all(s)))
}

/// A test of entries, as a test of filed entries.
spec fn on_filed(keep: spec_fn(EntryModel) -> bool) -> spec_fn(Filed) -> bool {
    |f: Filed| keep(f.entry)
}

/// A pile of the entries that pass a test builds the replay of what passes of the
/// history.
proof fn lemma_pile_history_filter(
    cfg: ConfigModel,
    s: Seq<EntryModel>,
    keep: spec_fn(EntryModel) -> bool,
)
    requires
        collision_free(cfg, s),
    ensures
        roster::built(cfg, s.filter(keep)) == roster::replay(
            cfg,
            pile_history(cfg, s).filter(on_filed(keep)),
        ),
{
    let p = on_filed(keep);
    let t = s.filter(keep);
    let ms = roster::retained(cfg, roster::vet_all(s));
    let mt = roster::retained(cfg, roster::vet_all(t));
    roster::lemma_folded_history(cfg, roster::vet_all(s));
    assert(collision_free(cfg, t)) by {
        assert forall|e: EntryModel, f: EntryModel|
            t.contains(e) && t.contains(f) && counts(cfg, e) && counts(cfg, f) && #[trigger] e.id()
                == #[trigger] f.id() implies e == f by {
            lemma_pile_filter(s, keep, e);
            lemma_pile_filter(s, keep, f);
        }
    }
    assert forall|c: Seq<u8>| #[trigger] only(ms, p).contains_key(c) implies mt.contains_key(c) && mt[c]
        == ms[c] by {
        lemma_retained(cfg, s, c);
        lemma_pile_filter(s, keep, ms[c]);
        lemma_retained_entry(cfg, t, ms[c]);
    }
    assert forall|c: Seq<u8>| #[trigger] mt.contains_key(c) implies only(ms, p).contains_key(c) by {
        lemma_retained(cfg, t, c);
        lemma_pile_filter(s, keep, mt[c]);
        lemma_retained_entry(cfg, s, mt[c]);
    }
    assert(only(ms, p) =~= mt);
    lemma_history_only(ms, roster::history(ms), p);
    roster::lemma_folded(cfg, roster::vet_all(t), roster::history(ms).filter(p));
}

/// An entry that is there and counts stands somewhere in the history of the pile;
/// what stands before it precedes it, what stands after it does not, and
/// everything in the history is an entry of the pile that counts.
proof fn lemma_pile_position(cfg: ConfigModel, s: Seq<EntryModel>, e: EntryModel) -> (n: int)
    requires
        collision_free(cfg, s),
        s.contains(e),
        counts(cfg, e),
    ensures
        0 <= n < pile_history(cfg, s).len(),
        pile_history(cfg, s)[n] == own_filed(e),
        roster::in_order(pile_history(cfg, s)),
        forall|i: int|
            0 <= i < pile_history(cfg, s).len() ==> {
                let f = #[trigger] pile_history(cfg, s)[i];
                f == own_filed(f.entry) && s.contains(f.entry) && counts(cfg, f.entry)
            },
{
    let m = roster::retained(cfg, roster::vet_all(s));
    let h = pile_history(cfg, s);
    roster::lemma_folded_history(cfg, roster::vet_all(s));
    lemma_retained_entry(cfg, s, e);
    assert(roster::files(h, e.id()));
    let n = choose|n: int| 0 <= n < h.len() && (#[trigger] h[n]).id == e.id();
    assert forall|i: int| 0 <= i < h.len() implies {
        let f = #[trigger] h[i];
        f == own_filed(f.entry) && s.contains(f.entry) && counts(cfg, f.entry)
    } by {
        lemma_retained(cfg, s, h[i].id);
    }
    n
}

/// Whether an entry was signed by `k` and comes after `mark`.
pub open spec fn late_entry_of(e: EntryModel, k: Seq<u8>, mark: EntryModel) -> bool {
    e.signer == k && roster::precedes(own_filed(mark), own_filed(e))
}

/// A device that the originator removed, and that nobody else adds after that,
/// stays out, and whatever it signs after that counts for nothing.
pub proof fn law_removed_device_stays_out(
    cfg: ConfigModel,
    s: Seq<EntryModel>,
    removal: EntryModel,
    k: Seq<u8>,
)
    requires
        k != cfg.originator_id,
        s.contains(removal),
        counts(cfg, removal),
        removal.signer == cfg.originator_id,
        removal.op matches OpModel::Remove { node_id, .. } && node_id == k,
        forall|e: EntryModel| #[trigger]
            counts(cfg, e) && s.contains(e) && adds(e, k) && e.signer != k ==> roster::precedes(
                own_filed(e),
                own_filed(removal),
            ),
        collision_free(cfg, s),
    ensures
        !roster::built(cfg, s).members.contains_key(k),
        roster::built(cfg, s) == roster::built(
            cfg,
            s.filter(|e: EntryModel| !late_entry_of(e, k, removal)),
        ),
{
    let keep = |e: EntryModel| !late_entry_of(e, k, removal);
    let p = on_filed(keep);
    let q = |f: Filed| f.entry.signer != k;
    let h = pile_history(cfg, s);
    lemma_pile_history_filter(cfg, s, keep);
    let n = lemma_pile_position(cfg, s, removal);
    let before = h.take(n + 1);
    let after = h.skip(n + 1);
    assert(h =~= before + after);
    assert(before.drop_last() =~= h.take(n));
    assert(before.last() == h[n]);
    assert forall|i: int| 0 <= i < after.len() && adds((#[trigger] after[i]).entry, k) implies after[i].entry.signer
        == k by {
        assert(after[i] == h[n + 1 + i]);
        assert(roster::precedes(h[n], h[n + 1 + i]));
    }
    law_removed_member_cannot_forge(cfg, before, after, k);
    let late = after.filter(p);
    assert forall|i: int| 0 <= i < late.len() && adds((#[trigger] late[i]).entry, k) implies late[i].entry.signer
        == k by {
        assert(late.contains(late[i]));
        after.lemma_filter_contains_rev(p, late[i]);
        let j = after.index_of(late[i]);
        assert(adds(after[j].entry, k));
    }
    law_removed_member_cannot_forge(cfg, before, late, k);
    lemma_filter_twice(after, p, q);
    Seq::filter_distributes_over_add(before, after, p);
    assert forall|i: int| 0 <= i < before.len() implies p(#[trigger] before[i]) by {
        assert(before[i] == h[i]);
        if i < n {
            assert(roster::precedes(h[i], h[n]));
        }
    }
    lemma_filter_all(before, p);
}

/// In a frozen roster that is not unfrozen, entries that add count for nothing.
proof fn lemma_adds_after_freeze(cfg: ConfigModel, before: Seq<Filed>, after: Seq<Filed>)
    requires
        roster::replay(cfg, before).frozen,
        forall|i: int| 0 <= i < after.len() ==> !unfreezes(cfg, (#[trigger] after[i]).entry),
    ensures
        roster::replay(cfg, before + after).frozen,
        roster::replay(cfg, before + after) == roster::replay(
            cfg,
            before + after.filter(|f: Filed| !(f.entry.op is Add)),
        ),
    decreases after.len(),
{
    let q = |f: Filed| !(f.entry.op is Add);
    reveal(Seq::filter);
    if after.len() == 0 {
        assert(before + after =~= before);
        assert(after.filter(q) =~= after);
    } else {
        let rest = after.drop_last();
        assert(forall|i: int| 0 <= i < rest.len() ==> #[trigger] rest[i] == after[i]);
        lemma_adds_after_freeze(cfg, before, rest);
        lemma_replay_join(cfg, before, after);
        assert(after.last() == after[after.len() - 1]);
        if q(after.last()) {
            let kept = rest.filter(q);
            assert(after.filter(q) =~= kept.push(after.last()));
            assert(before + kept.push(after.last()) =~= (before + kept).push(after.last()));
            lemma_replay_push(cfg, before + kept, after.last());
        } else {
            assert(after.filter(q) =~= rest.filter(q));
        }
    }
}

/// Whether an entry is an `Add` and comes after `mark`.
pub open spec fn late_add(e: EntryModel, mark: EntryModel) -> bool {
    e.op is Add && roster::precedes(own_filed(mark), own_filed(e))
}

/// Once the originator has frozen the membership, and has not unfrozen it after
/// that, it is frozen, and no `Add` after the freeze counts for anything, whoever
/// signed it.
pub proof fn law_frozen_membership_admits_nobody(
    cfg: ConfigModel,
    s: Seq<EntryModel>,
    freeze: EntryModel,
)
    requires
        s.contains(freeze),
        counts(cfg, freeze),
        freeze.signer == cfg.originator_id,
        freeze.op matches OpModel::Freeze { frozen, .. } && frozen,
        forall|e: EntryModel| #[trigger]
            counts(cfg, e) && s.contains(e) && unfreezes(cfg, e) ==> roster::precedes(
                own_filed(e),
                own_filed(freeze),
            ),
        collision_free(cfg, s),
    ensures
        roster::built(cfg, s).frozen,
        roster::built(cfg, s) == roster::built(
            cfg,
            s.filter(|e: EntryModel| !late_add(e, freeze)),
        ),
{
    let keep = |e: EntryModel| !late_add(e, freeze);
    let p = on_filed(keep);
    let q = |f: Filed| !(f.entry.op is Add);
    let h = pile_history(cfg, s);
    lemma_pile_history_filter(cfg, s, keep);
    let n = lemma_pile_position(cfg, s, freeze);
    let before = h.take(n + 1);
    let after = h.skip(n + 1);
    assert(h =~= before + after);
    assert(before.drop_last() =~= h.take(n));
    assert(before.last() == h[n]);
    assert forall|i: int| 0 <= i < after.len() implies !unfreezes(cfg, (#[trigger] after[i]).entry) && p(
        after[i],
    ) == q(after[i]) by {
        assert(after[i] == h[n + 1 + i]);
        assert(roster::precedes(h[n], h[n + 1 + i]));
    }
    lemma_adds_after_freeze(cfg, before, after);
    lemma_filter_agree(after, p, q);
    Seq::filter_distributes_over_add(before, after, p);
    assert forall|i: int| 0 <= i < before.len() implies p(#[trigger] before[i]) by {
        assert(before[i] == h[i]);
        if i < n {
            assert(roster::precedes(h[i], h[n]));
        }
    }
    lemma_filter_all(before, p);
}

/// An entry that changes nothing in any state can stand anywhere in a history.
proof fn lemma_replay_idle(cfg: ConfigModel, h: Seq<Filed>, p: int, x: Filed)
    requires
        0 <= p <= h.len(),
        x.entry.signer != cfg.originator_id,
        !(x.entry.op is Add),
    ensures
        roster::replay(cfg, h.insert(p, x)) == roster::replay(cfg, h),
    decreases h.len(),
{
    let g = h.insert(p, x);
    if p == h.len() {
        assert(g.drop_last() =~= h);
        assert(g.last() == x);
    } else {
        assert(g.drop_last() =~= h.drop_last().insert(p, x));
        assert(g.last() == h.last());
        lemma_replay_idle(cfg, h.drop_last(), p, x);
    }
}

/// Putting an entry into a pile retains it, if it counts, and leaves everything
/// else as it is, as long as no different entry that counts shares its content
/// address.
proof fn lemma_retained_insert(cfg: ConfigModel, s: Seq<EntryModel>, p: int, x: EntryModel)
    requires
        0 <= p <= s.len(),
        forall|e: EntryModel| #[trigger]
            s.contains(e) && counts(cfg, e) && counts(cfg, x) && e.id() == x.id() ==> e == x,
    ensures
        roster::retained(cfg, roster::vet_all(s.insert(p, x))) == if counts(cfg, x) {
            roster::retained(cfg, roster::vet_all(s)).insert(x.id(), x)
        } else {
            roster::retained(cfg, roster::vet_all(s))
        },
    decreases s.len(),
{
    let t = s.insert(p, x);
    let vs = roster::vet_all(s);
    let vt = roster::vet_all(t);
    if p == s.len() {
        assert(vt.drop_last() =~= vs);
        assert(vt.last() == roster::vet(x));
    } else {
        let rest = s.drop_last();
        assert forall|e: EntryModel| #[trigger]
            rest.contains(e) && counts(cfg, e) && counts(cfg, x) && e.id() == x.id() implies e == x by {
            assert(s[rest.index_of(e)] == e);
            assert(s.contains(e));
        }
        lemma_retained_insert(cfg, rest, p, x);
        assert(vs.drop_last() =~= roster::vet_all(rest));
        assert(vt.drop_last() =~= roster::vet_all(rest.insert(p, x)));
        assert(vs.last() == roster::vet(s.last()) && vt.last() == roster::vet(s.last()));
        assert(s[s.len() - 1] == s.last());
        assert(s.contains(s.last()));
        assert(roster::retained(cfg, vt) =~= if counts(cfg, x) {
            roster::retained(cfg, vs).insert(x.id(), x)
        } else {
            roster::retained(cfg, vs)
        });
    }
}

/// A `Remove` or a `Freeze` of anyone but the originator is as good as absent,
/// wherever in a pile it turns up, as long as it does not displace a different
/// entry with its content address.
pub proof fn law_removals_and_freezes_of_others_are_ignored(
    cfg: ConfigModel,
    s: Seq<EntryModel>,
    p: int,
    x: EntryModel,
)
    requires
        0 <= p <= s.len(),
        x.signer != cfg.originator_id,
        !(x.op is Add),
        forall|e: EntryModel| #[trigger]
            s.contains(e) && counts(cfg, e) && counts(cfg, x) && e.id() == x.id() ==> e == x,
    ensures
        roster::built(cfg, s.insert(p, x)) == roster::built(cfg, s),
{
    let ms = roster::retained(cfg, roster::vet_all(s));
    let vt = roster::vet_all(s.insert(p, x));
    lemma_retained_insert(cfg, s, p, x);
    if counts(cfg, x) {
        lemma_retained(cfg, s, x.id());
        if ms.contains_key(x.id()) {
            assert(s.contains(ms[x.id()]));
            assert(ms.insert(x.id(), x) =~= ms);
        } else {
            let h = roster::history(ms);
            let f = own_filed(x);
            roster::lemma_folded_history(cfg, roster::vet_all(s));
            assert forall|i: int| 0 <= i < h.len() implies (#[trigger] h[i]).id != f.id by {
                assert(ms.contains_key(h[i].id));
            }
            let at = roster::lemma_place(h, f);
            roster::lemma_history_insert(ms, h, f, at);
            roster::lemma_folded(cfg, vt, h.insert(at, f));
            lemma_replay_idle(cfg, h, at, f);
        }
    }
}

/// Whether an entry is a `Freeze` of the originator, one way or the other.
pub open spec fn sets_freeze(cfg: ConfigModel, e: EntryModel) -> bool {
    e.signer == cfg.originator_id && e.op is Freeze
}

/// Without a `Freeze` of the originator, the switch stays where it was.
proof fn lemma_switch_untouched(cfg: ConfigModel, before: Seq<Filed>, after: Seq<Filed>)
    requires
        forall|i: int| 0 <= i < after.len() ==> !sets_freeze(cfg, (#[trigger] after[i]).entry),
    ensures
        roster::replay(cfg, before + after).frozen == roster::replay(cfg, before).frozen,
    decreases after.len(),
{
    if after.len() == 0 {
        assert(before + after =~= before);
    } else {
        let rest = after.drop_last();
        assert(forall|i: int| 0 <= i < rest.len() ==> #[trigger] rest[i] == after[i]);
        lemma_switch_untouched(cfg, before, rest);
        lemma_replay_join(cfg, before, after);
        assert(after.last() == after[after.len() - 1]);
    }
}

/// The membership is frozen or not as the originator's last `Freeze` says, the
/// one that all others precede.
pub proof fn law_last_freeze_decides(cfg: ConfigModel, s: Seq<EntryModel>, freeze: EntryModel)
    requires
        s.contains(freeze),
        counts(cfg, freeze),
        sets_freeze(cfg, freeze),
        forall|e: EntryModel| #[trigger]
            counts(cfg, e) && s.contains(e) && sets_freeze(cfg, e) && e != freeze ==> roster::precedes(
                own_filed(e),
                own_filed(freeze),
            ),
        collision_free(cfg, s),
    ensures
        roster::built(cfg, s).frozen == freeze.op->frozen,
{
    let h = pile_history(cfg, s);
    let n = lemma_pile_position(cfg, s, freeze);
    let before = h.take(n + 1);
    let after = h.skip(n + 1);
    assert(h =~= before + after);
    assert(before.drop_last() =~= h.take(n));
    assert(before.last() == h[n]);
    assert forall|i: int| 0 <= i < after.len() implies !sets_freeze(cfg, (#[trigger] after[i]).entry) by {
        assert(after[i] == h[n + 1 + i]);
        assert(roster::precedes(h[n], h[n + 1 + i]));
    }
    lemma_switch_untouched(cfg, before, after);
}

/// Without a `Freeze` of the originator the membership is not frozen.
pub proof fn law_unfrozen_without_a_freeze(cfg: ConfigModel, s: Seq<EntryModel>)
    requires
        forall|e: EntryModel| #[trigger] counts(cfg, e) && s.contains(e) ==> !sets_freeze(cfg, e),
    ensures
        !roster::built(cfg, s).frozen,
{
    let h = pile_history(cfg, s);
    let none = Seq::<Filed>::empty();
    roster::lemma_folded_history(cfg, roster::vet_all(s));
    assert forall|i: int| 0 <= i < h.len() implies !sets_freeze(cfg, (#[trigger] h[i]).entry) by {
        lemma_retained(cfg, s, h[i].id);
        assert(counts(cfg, h[i].entry));
    }
    lemma_switch_untouched(cfg, none, h);
    assert(none + h =~= h);
}

/// A test that everything passes leaves a sequence as it is.
proof fn lemma_filter_all(h: Seq<Filed>, p: spec_fn(Filed) -> bool)
    requires
        forall|i: int| 0 <= i < h.len() ==> p(#[trigger] h[i]),
    ensures
        h.filter(p) == h,
    decreases h.len(),
{
    reveal(Seq::filter);
    if h.len() > 0 {
        assert(forall|i: int| 0 <= i < h.drop_last().len() ==> #[trigger] h.drop_last()[i] == h[i]);
        lemma_filter_all(h.drop_last(), p);
        assert(h.last() == h[h.len() - 1]);
        assert(h =~= h.drop_last().push(h.last()));
    } else {
        assert(h.filter(p) =~= h);
    }
}

/// With no entries that count there are no members, and nothing is frozen.
pub proof fn law_nothing_from_nothing(cfg: ConfigModel, s: Seq<EntryModel>)
    requires
        forall|e: EntryModel| #[trigger] s.contains(e) ==> !counts(cfg, e),
    ensures
        roster::built(cfg, s) == roster::empty_roster(),
{
    let m = roster::retained(cfg, roster::vet_all(s));
    roster::lemma_folded_history(cfg, roster::vet_all(s));
    let h = roster::history(m);
    if h.len() > 0 {
        assert(m.contains_key(h[0].id));
        lemma_retained(cfg, s, h[0].id);
    }
}

// ---------------------------------------------------------------------------
// Time
// ---------------------------------------------------------------------------

/// The timestamp that an entry carries in its operation.
pub open spec fn stamp(e: EntryModel) -> int {
    match e.op {
        OpModel::Add { ts, .. } => ts as int,
        OpModel::Remove { ts, .. } => ts as int,
        OpModel::Freeze { ts, .. } => ts as int,
    }
}

/// An operation reports the timestamp that was put into it.
pub proof fn law_operations_report_their_timestamp(op: &Op, r: u64)
    requires
        call_ensures(Op::ts, (op,), r),
    ensures
        match *op {
            Op::Add { ts, .. } => r == ts,
            Op::Remove { ts, .. } => r == ts,
            Op::Freeze { ts, .. } => r == ts,
        },
{
}

/// Of two entries the one with the smaller timestamp comes first, whatever their
/// operations, their signers and their content addresses are.
pub proof fn law_earlier_timestamp_comes_first(a: Filed, b: Filed)
    requires
        stamp(a.entry) < stamp(b.entry),
    ensures
        roster::precedes(a, b),
        !roster::precedes(b, a),
{
}

/// Of two entries with one timestamp the one comes first whose content address is
/// smaller at the first byte where the two differ.
pub proof fn law_ties_go_by_content_address(a: Filed, b: Filed, i: int)
    requires
        stamp(a.entry) == stamp(b.entry),
        a.id.len() == b.id.len(),
        0 <= i < a.id.len(),
        forall|j: int| 0 <= j < i ==> a.id[j] == b.id[j],
        a.id[i] < b.id[i],
    ensures
        roster::precedes(a, b),
        !roster::precedes(b, a),
{
    ids::lemma_rank_first_difference(a.id, b.id, i);
}

/// Identities are ordered by the first byte where they differ.
pub proof fn law_identities_are_ordered_byte_by_byte(a: &Id, b: &Id, r: bool, i: int)
    requires
        call_ensures(ids::id_before, (a, b), r),
        0 <= i < 32,
        forall|j: int| 0 <= j < i ==> a@[j] == b@[j],
        a@[i] != b@[i],
    ensures
        r == (a@[i] < b@[i]),
{
    if a@[i] < b@[i] {
        ids::lemma_rank_first_difference(a@, b@, i);
    } else {
        ids::lemma_rank_first_difference(b@, a@, i);
    }
}

/// Identities are the same exactly if all of their bytes are.
pub proof fn law_identities_are_compared_byte_by_byte(a: &Id, b: &Id, r: bool)
    requires
        call_ensures(ids::same_id, (a, b), r),
    ensures
        r <==> forall|i: int| 0 <= i < 32 ==> #[trigger] a@[i] == b@[i],
{
    if forall|i: int| 0 <= i < 32 ==> #[trigger] a@[i] == b@[i] {
        assert(a@ =~= b@);
    }
}

/// An entry counts for a network exactly if it names that network, its signature
/// has 64 bytes, and the signature is one of the named signer on the signed bytes.
pub proof fn law_authentic_entries_of_the_network_count(cfg: ConfigModel, e: EntryModel)
    ensures
        counts(cfg, e) <==> {
            &&& e.network_id == cfg.network_id
            &&& e.signature.len() == 64
            &&& ed25519_accepts(e.signer, entry::signing_form(e.network_id, e.signer, e.op), e.signature)
        },
{
}

/// Whether a pile holds nothing but `e` under the content address of `e`.
pub open spec fn alone_at_its_address(cfg: ConfigModel, s: Seq<EntryModel>, e: EntryModel) -> bool {
    forall|f: EntryModel|
        s.contains(f) && counts(cfg, f) && #[trigger] f.id() == e.id() ==> f == e
}

/// An entry that is there, counts and is alone at its address stands somewhere in
/// the history of the pile, and everything in the history is an entry of the pile
/// that counts.
proof fn lemma_lone_position(cfg: ConfigModel, s: Seq<EntryModel>, e: EntryModel) -> (n: int)
    requires
        alone_at_its_address(cfg, s, e),
        s.contains(e),
        counts(cfg, e),
    ensures
        0 <= n < pile_history(cfg, s).len(),
        pile_history(cfg, s)[n] == own_filed(e),
        roster::in_order(pile_history(cfg, s)),
        roster::built(cfg, s) == roster::replay(cfg, pile_history(cfg, s)),
        forall|i: int|
            0 <= i < pile_history(cfg, s).len() ==> {
                let f = #[trigger] pile_history(cfg, s)[i];
                f == own_filed(f.entry) && s.contains(f.entry) && counts(cfg, f.entry)
            },
{
    let m = roster::retained(cfg, roster::vet_all(s));
    let h = pile_history(cfg, s);
    roster::lemma_folded_history(cfg, roster::vet_all(s));
    lemma_retained(cfg, s, e.id());
    assert(m.contains_key(e.id()));
    assert(m[e.id()].id() == e.id());
    assert(roster::files(h, e.id()));
    let n = choose|n: int| 0 <= n < h.len() && (#[trigger] h[n]).id == e.id();
    assert forall|i: int| 0 <= i < h.len() implies {
        let f = #[trigger] h[i];
        f == own_filed(f.entry) && s.contains(f.entry) && counts(cfg, f.entry)
    } by {
        lemma_retained(cfg, s, h[i].id);
    }
    n
}

/// Whoever is out stays out as long as nobody adds it.
proof fn lemma_stays_out(cfg: ConfigModel, before: Seq<Filed>, after: Seq<Filed>, k: Seq<u8>)
    requires
        !roster::replay(cfg, before).members.contains_key(k),
        forall|i: int| 0 <= i < after.len() ==> !adds((#[trigger] after[i]).entry, k),
    ensures
        !roster::replay(cfg, before + after).members.contains_key(k),
    decreases after.len(),
{
    if after.len() == 0 {
        assert(before + after =~= before);
    } else {
        let rest = after.drop_last();
        assert(forall|i: int| 0 <= i < rest.len() ==> #[trigger] rest[i] == after[i]);
        lemma_stays_out(cfg, before, rest, k);
        lemma_replay_join(cfg, before, after);
        assert(after.last() == after[after.len() - 1]);
    }
}

/// Whether an entry is the originator's removal of `k`.
pub open spec fn removes(cfg: ConfigModel, e: EntryModel, k: Seq<u8>) -> bool {
    e.signer == cfg.originator_id && (e.op matches OpModel::Remove { node_id, .. } && node_id == k)
}

/// Whoever is in stays in, on the same terms, as long as nobody adds it again and
/// the originator does not remove it.
proof fn lemma_stays_in(cfg: ConfigModel, before: Seq<Filed>, after: Seq<Filed>, k: Seq<u8>)
    requires
        roster::replay(cfg, before).members.contains_key(k),
        forall|i: int|
            0 <= i < after.len() ==> !adds((#[trigger] after[i]).entry, k) && !removes(
                cfg,
                after[i].entry,
                k,
            ),
    ensures
        roster::replay(cfg, before + after).members.contains_key(k),
        roster::replay(cfg, before + after).members[k] == roster::replay(cfg, before).members[k],
    decreases after.len(),
{
    if after.len() == 0 {
        assert(before + after =~= before);
    } else {
        let rest = after.drop_last();
        assert(forall|i: int| 0 <= i < rest.len() ==> #[trigger] rest[i] == after[i]);
        lemma_stays_in(cfg, before, rest, k);
        lemma_replay_join(cfg, before, after);
        assert(after.last() == after[after.len() - 1]);
    }
}

/// A device that the originator removed later than anyone added it is no member,
/// in whatever order the entries arrive.
pub proof fn law_later_removal_wins(
    cfg: ConfigModel,
    s: Seq<EntryModel>,
    removal: EntryModel,
    k: Seq<u8>,
)
    requires
        s.contains(removal),
        removal.network_id == cfg.network_id,
        removal.verified(),
        removes(cfg, removal, k),
        forall|e: EntryModel| #[trigger]
            s.contains(e) && adds(e, k) && e.network_id == cfg.network_id && e.verified() ==> stamp(e)
                < stamp(removal),
        alone_at_its_address(cfg, s, removal),
    ensures
        !roster::built(cfg, s).members.contains_key(k),
{
    let h = pile_history(cfg, s);
    let n = lemma_lone_position(cfg, s, removal);
    let before = h.take(n + 1);
    let after = h.skip(n + 1);
    assert(h =~= before + after);
    assert(before.drop_last() =~= h.take(n));
    assert(before.last() == h[n]);
    assert forall|i: int| 0 <= i < after.len() implies !adds((#[trigger] after[i]).entry, k) by {
        assert(after[i] == h[n + 1 + i]);
        assert(roster::precedes(h[n], h[n + 1 + i]));
        if adds(after[i].entry, k) {
            assert(s.contains(after[i].entry));
            law_earlier_timestamp_comes_first(after[i], h[n]);
        }
    }
    lemma_stays_out(cfg, before, after, k);
}

/// A device that the originator added later than it removed it, and later than
/// anyone else added it, is a member on the terms of that entry, in whatever order
/// the entries arrive, provided that the originator froze nothing up to then.
pub proof fn law_later_add_wins(cfg: ConfigModel, s: Seq<EntryModel>, add: EntryModel, k: Seq<u8>)
    requires
        s.contains(add),
        add.network_id == cfg.network_id,
        add.verified(),
        add.signer == cfg.originator_id,
        adds(add, k),
        forall|e: EntryModel| #[trigger]
            s.contains(e) && e != add && (adds(e, k) || removes(cfg, e, k)) && e.network_id
                == cfg.network_id && e.verified() ==> stamp(e) < stamp(add),
        forall|e: EntryModel| #[trigger]
            s.contains(e) && e.signer == cfg.originator_id && (e.op matches OpModel::Freeze { frozen, .. }
                && frozen) && e.network_id == cfg.network_id && e.verified() ==> stamp(e) > stamp(add),
        alone_at_its_address(cfg, s, add),
    ensures
        roster::built(cfg, s).members.contains_key(k),
        roster::built(cfg, s).members[k].hostname == add.op->hostname,
        roster::built(cfg, s).members[k].virtual_ip == add.op->virtual_ip,
        roster::built(cfg, s).members[k].added_by == cfg.originator_id,
{
    let h = pile_history(cfg, s);
    let n = lemma_lone_position(cfg, s, add);
    let front = h.take(n);
    let before = h.take(n + 1);
    let after = h.skip(n + 1);
    assert(h =~= before + after);
    assert(before.drop_last() =~= front);
    assert(before.last() == h[n]);
    assert forall|i: int| 0 <= i < after.len() implies !adds((#[trigger] after[i]).entry, k) && !removes(
        cfg,
        after[i].entry,
        k,
    ) by {
        assert(after[i] == h[n + 1 + i]);
        assert(roster::precedes(h[n], h[n + 1 + i]));
        assert(s.contains(after[i].entry));
        if adds(after[i].entry, k) || removes(cfg, after[i].entry, k) {
            if after[i].entry == add {
                assert(!roster::precedes(own_filed(add), own_filed(add)));
            } else {
                law_earlier_timestamp_comes_first(after[i], h[n]);
            }
        }
    }
    assert forall|i: int| 0 <= i < front.len() implies !((#[trigger] front[i]).entry.signer
        == cfg.originator_id && (front[i].entry.op matches OpModel::Freeze { frozen, .. } && frozen)) by {
        assert(front[i] == h[i]);
        assert(roster::precedes(h[i], h[n]));
        assert(s.contains(h[i].entry));
        if h[i].entry.signer == cfg.originator_id && (h[i].entry.op matches OpModel::Freeze {
            frozen,
            ..
        } && frozen) {
            law_earlier_timestamp_comes_first(h[n], h[i]);
        }
    }
    lemma_never_frozen(cfg, front);
    lemma_stays_in(cfg, before, after, k);
}

/// What the originator never froze is not frozen.
proof fn lemma_never_frozen(cfg: ConfigModel, h: Seq<Filed>)
    requires
        forall|i: int|
            0 <= i < h.len() ==> !((#[trigger] h[i]).entry.signer == cfg.originator_id && (h[i].entry.op matches
                OpModel::Freeze { frozen, .. } && frozen)),
    ensures
        !roster::replay(cfg, h).frozen,
    decreases h.len(),
{
    if h.len() > 0 {
        assert(forall|i: int| 0 <= i < h.drop_last().len() ==> #[trigger] h.drop_last()[i] == h[i]);
        lemma_never_frozen(cfg, h.drop_last());
        assert(h.last() == h[h.len() - 1]);
    }
}

/// The membership is frozen or not as the originator's `Freeze` with the largest
/// timestamp says, in whatever order the entries arrive.
pub proof fn law_later_freeze_wins(cfg: ConfigModel, s: Seq<EntryModel>, freeze: EntryModel)
    requires
        s.contains(freeze),
        freeze.network_id == cfg.network_id,
        freeze.verified(),
        freeze.signer == cfg.originator_id,
        freeze.op is Freeze,
        forall|e: EntryModel| #[trigger]
            s.contains(e) && e != freeze && e.signer == cfg.originator_id && e.op is Freeze && e.network_id
                == cfg.network_id && e.verified() ==> stamp(e) < stamp(freeze),
        alone_at_its_address(cfg, s, freeze),
    ensures
        roster::built(cfg, s).frozen == freeze.op->frozen,
{
    let h = pile_history(cfg, s);
    let n = lemma_lone_position(cfg, s, freeze);
    let before = h.take(n + 1);
    let after = h.skip(n + 1);
    assert(h =~= before + after);
    assert(before.drop_last() =~= h.take(n));
    assert(before.last() == h[n]);
    assert forall|i: int| 0 <= i < after.len() implies !sets_freeze(cfg, (#[trigger] after[i]).entry) by {
        assert(after[i] == h[n + 1 + i]);
        assert(roster::precedes(h[n], h[n + 1 + i]));
        assert(s.contains(after[i].entry));
        if sets_freeze(cfg, after[i].entry) {
            if after[i].entry == freeze {
                assert(!roster::precedes(own_filed(freeze), own_filed(freeze)));
            } else {
                law_earlier_timestamp_comes_first(after[i], h[n]);
            }
        }
    }
    lemma_switch_untouched(cfg, before, after);
}

/// An entry that is newer by its timestamp than all others that count is applied
/// last, wherever in the pile it stands.
pub proof fn law_newest_timestamp_is_applied_last(
    cfg: ConfigModel,
    s: Seq<EntryModel>,
    p: int,
    e: EntryModel,
)
    requires
        0 <= p <= s.len(),
        e.network_id == cfg.network_id,
        e.verified(),
        forall|f: EntryModel| #[trigger]
            s.contains(f) && f.network_id == cfg.network_id && f.verified() ==> stamp(f) < stamp(e)
                && f.id() != e.id(),
    ensures
        roster::built(cfg, s.insert(p, e)) == roster::apply(cfg, roster::built(cfg, s), e),
{
    assert forall|f: EntryModel| #[trigger] counts(cfg, f) && s.contains(f) implies roster::precedes(
        own_filed(f),
        own_filed(e),
    ) && f.id() != e.id() by {
        assert(s.contains(f));
        law_earlier_timestamp_comes_first(own_filed(f), own_filed(e));
    }
    assert forall|f: EntryModel| #[trigger]
        s.contains(f) && counts(cfg, f) && counts(cfg, e) && f.id() == e.id() implies f == e by {
        assert(counts(cfg, f));
    }
    law_newest_entry_is_applied_last(cfg, s, e);
    lemma_retained_insert(cfg, s, p, e);
    lemma_retained_insert(cfg, s, s.len() as int, e);
    assert(s.insert(s.len() as int, e) =~= s.push(e));
}

/// Which of several entries with one content address stands: the last one in the
/// list that names the network and was found authentic, and no other.
pub proof fn law_last_of_an_address_stands(cfg: ConfigModel, s: Seq<VettedModel>, i: int)
    requires
        0 <= i < s.len(),
        s[i].entry.network_id == cfg.network_id,
        s[i].verified,
        forall|j: int|
            i < j < s.len() && (#[trigger] s[j]).entry.network_id == cfg.network_id && s[j].verified
                ==> s[j].id != s[i].id,
    ensures
        roster::retained(cfg, s).contains_key(s[i].id),
        roster::retained(cfg, s)[s[i].id] == s[i].entry,
    decreases s.len(),
{
    let rest = s.drop_last();
    assert(s.last() == s[s.len() - 1]);
    if i < rest.len() {
        assert(rest[i] == s[i]);
        assert(forall|j: int| 0 <= j < rest.len() ==> #[trigger] rest[j] == s[j]);
        law_last_of_an_address_stands(cfg, rest, i);
    }
}

/// Nothing stands under a content address but an entry of the list with that
/// address that names the network and was found authentic.
pub proof fn law_only_accepted_entries_stand(cfg: ConfigModel, s: Seq<VettedModel>, id: Seq<u8>)
    requires
        roster::retained(cfg, s).contains_key(id),
    ensures
        exists|i: int|
            0 <= i < s.len() && (#[trigger] s[i]).id == id && s[i].entry == roster::retained(cfg, s)[id]
                && s[i].entry.network_id == cfg.network_id && s[i].verified,
    decreases s.len(),
{
    let rest = s.drop_last();
    assert(s.last() == s[s.len() - 1]);
    if !(roster::accepted(cfg, s.last()) && s.last().id == id) {
        law_only_accepted_entries_stand(cfg, rest, id);
        let i = choose|i: int|
            0 <= i < rest.len() && (#[trigger] rest[i]).id == id && rest[i].entry == roster::retained(
                cfg,
                rest,
            )[id] && rest[i].entry.network_id == cfg.network_id && rest[i].verified;
        assert(s[i] == rest[i]);
    }
}

/// What a member of a built roster shows is what the entry that admitted it says:
/// the roster of one authentic `Add` of the originator has that device as its
/// member, by the given name, at the given address, vouched for by the originator.
pub proof fn law_first_member_has_the_given_terms(
    cfg: &Config,
    entries: &[Entry],
    r: &Roster,
    id: &Id,
    m: Option<&Member>,
)
    requires
        entries@.len() == 1,
        entries@[0].network_id@ == cfg.network_id@,
        entries@[0].signer@ == cfg.originator_id@,
        entries@[0]@.verified(),
        entries@[0].op matches Op::Add { node_id, .. } && node_id@ == id@,
        call_ensures(Roster::build, (cfg, entries), *r),
        call_ensures(Roster::member, (r, id), m),
    ensures
        m matches Some(x) && (entries@[0].op matches Op::Add { hostname, virtual_ip, .. } && x.hostname@
            == hostname@ && x.virtual_ip == virtual_ip && x.added_by@ == cfg.originator_id@),
{
    let e = entries@[0]@;
    assert(roster::entry_models(entries@) =~= seq![e]);
    law_genesis_member_is_admitted(cfg@, e);
}

/// What a removal says shows in the built roster: where the originator removed a
/// device later than anyone added it, the device is no member.
pub proof fn law_removed_device_is_no_member(
    cfg: &Config,
    entries: &[Entry],
    r: &Roster,
    id: &Id,
    is_member: bool,
    i: int,
)
    requires
        call_ensures(Roster::build, (cfg, entries), *r),
        call_ensures(Roster::is_member, (r, id), is_member),
        0 <= i < entries@.len(),
        entries@[i].network_id@ == cfg.network_id@,
        entries@[i].signer@ == cfg.originator_id@,
        entries@[i]@.verified(),
        entries@[i].op matches Op::Remove { node_id, .. } && node_id@ == id@,
        forall|j: int|
            #![trigger entries@[j]]
            0 <= j < entries@.len() && (entries@[j].op matches Op::Add { node_id, .. } && node_id@ == id@)
                ==> stamp(entries@[j]@) < stamp(entries@[i]@),
        alone_at_its_address(cfg@, roster::entry_models(entries@), entries@[i]@),
    ensures
        !is_member,
{
    let s = roster::entry_models(entries@);
    assert(s[i] == entries@[i]@);
    assert(s.contains(entries@[i]@));
    assert forall|e: EntryModel| #[trigger]
        s.contains(e) && adds(e, id@) && e.network_id == cfg@.network_id && e.verified() implies stamp(e)
        < stamp(entries@[i]@) by {
        let j = s.index_of(e);
        assert(s[j] == entries@[j]@);
    }
    law_later_removal_wins(cfg@, s, entries@[i]@, id@);
}

// ---------------------------------------------------------------------------
// Reading a roster
// ---------------------------------------------------------------------------

/// The ways to read a roster agree: a device is a member exactly if its terms can
/// be had, exactly if it is in the list of members; the list has each member once,
/// with those terms, in the order of the bytes of their ids, and it is as long as
/// the number of members; a roster is empty exactly if that number is zero.
pub proof fn law_readings_of_a_roster_agree(
    r: &Roster,
    id: &Id,
    is_member: bool,
    m: Option<&Member>,
    list: &[(Id, Member)],
    n: usize,
    empty: bool,
)
    requires
        call_ensures(Roster::is_member, (r, id), is_member),
        call_ensures(Roster::member, (r, id), m),
        call_ensures(Roster::members, (r,), list),
        call_ensures(Roster::len, (r,), n),
        call_ensures(Roster::is_empty, (r,), empty),
    ensures
        is_member <==> m is Some,
        is_member <==> exists|i: int| 0 <= i < list@.len() && (#[trigger] list@[i]).0@ == id@,
        forall|i: int|
            0 <= i < list@.len() && (#[trigger] list@[i]).0@ == id@ ==> m is Some && m->0.hostname@
                == list@[i].1.hostname@ && m->0.virtual_ip == list@[i].1.virtual_ip && m->0.added_by@
                == list@[i].1.added_by@,
        forall|i: int, j: int, d: int|
            #![trigger list@[i].0@[d], list@[j].0@[d]]
            0 <= i < j < list@.len() && 0 <= d < 32 && (forall|c: int|
                0 <= c < d ==> #[trigger] list@[i].0@[c] == list@[j].0@[c]) ==> list@[i].0@[d]
                <= list@[j].0@[d],
        n == list@.len(),
        empty <==> n == 0,
{
    let s = list@;
    let keys = idmap::map_of(s).dom();
    assert(keys == r@.members.dom());
    assert(is_member <==> keys.contains(id@));
    if keys.contains(id@) {
        let i = choose|i: int| idmap::key_at(s, i, id@);
        assert(s[i].0@ == id@);
    }
    assert forall|i: int| 0 <= i < s.len() implies keys.contains((#[trigger] s[i]).0@) by {
        assert(idmap::key_at(s, i, s[i].0@));
    }
    assert forall|i: int, j: int, d: int|
        #![trigger s[i].0@[d], s[j].0@[d]]
        0 <= i < j < s.len() && 0 <= d < 32 && (forall|c: int|
            0 <= c < d ==> #[trigger] s[i].0@[c] == s[j].0@[c]) implies s[i].0@[d] <= s[j].0@[d] by {
        assert(ids::rank(s[i].0@) < ids::rank(s[j].0@));
        if s[i].0@[d] > s[j].0@[d] {
            ids::lemma_rank_first_difference(s[j].0@, s[i].0@, d);
        }
    }
    let ks = Seq::new(s.len(), |i: int| s[i].0@);
    assert(ks.no_duplicates()) by {
        assert forall|i: int, j: int| 0 <= i < j < ks.len() implies ks[i] != ks[j] by {
            assert(ids::rank(s[i].0@) < ids::rank(s[j].0@));
        }
    }
    ks.unique_seq_to_set();
    assert(ks.to_set() =~= keys) by {
        assert forall|k: Seq<u8>| ks.to_set().contains(k) <==> keys.contains(k) by {
            if ks.to_set().contains(k) {
                let i = ks.index_of(k);
                assert(keys.contains(s[i].0@));
            }
            if keys.contains(k) {
                let i = choose|i: int| idmap::key_at(s, i, k);
                assert(ks[i] == k);
            }
        }
    }
    if n == 0 {
        assert(r@.members.dom() =~= Set::<Seq<u8>>::empty());
        assert(r@.members =~= Map::<Seq<u8>, MemberModel>::empty());
    }
}

/// A built roster reads as frozen or not as the originator's `Freeze` with the
/// largest timestamp says.
pub proof fn law_freeze_shows_in_the_roster(
    cfg: &Config,
    entries: &[Entry],
    r: &Roster,
    reads: bool,
    i: int,
)
    requires
        call_ensures(Roster::build, (cfg, entries), *r),
        call_ensures(Roster::frozen, (r,), reads),
        0 <= i < entries@.len(),
        entries@[i].network_id@ == cfg.network_id@,
        entries@[i].signer@ == cfg.originator_id@,
        entries@[i]@.verified(),
        entries@[i].op is Freeze,
        forall|j: int|
            #![trigger entries@[j]]
            0 <= j < entries@.len() && entries@[j]@ != entries@[i]@ && entries@[j].op is Freeze ==> stamp(
                entries@[j]@,
            ) < stamp(entries@[i]@),
        alone_at_its_address(cfg@, roster::entry_models(entries@), entries@[i]@),
    ensures
        entries@[i].op matches Op::Freeze { frozen, .. } && reads == frozen,
{
    let s = roster::entry_models(entries@);
    let freeze = entries@[i]@;
    assert(s[i] == freeze);
    assert(s.contains(freeze));
    assert forall|e: EntryModel| #[trigger]
        s.contains(e) && e != freeze && e.signer == cfg@.originator_id && e.op is Freeze && e.network_id
            == cfg@.network_id && e.verified() implies stamp(e) < stamp(freeze) by {
        let j = s.index_of(e);
        assert(s[j] == entries@[j]@);
    }
    law_later_freeze_wins(cfg@, s, freeze);
}

/// Folding entries with their own content addresses and verdicts is building from
/// them.
pub proof fn law_building_is_folding_with_true_verdicts(
    cfg: &Config,
    entries: &[Entry],
    vetted: &[Vetted],
    a: Roster,
    b: Roster,
)
    requires
        vetted@.len() == entries@.len(),
        forall|i: int|
            0 <= i < vetted@.len() ==> (#[trigger] vetted@[i]).entry@ == entries@[i]@ && vetted@[i].id@
                == entries@[i]@.id() && vetted@[i].verified == entries@[i]@.verified(),
        call_ensures(Roster::fold, (cfg, vetted), a),
        call_ensures(Roster::build, (cfg, entries), b),
    ensures
        a@ == b@,
{
    assert(roster::vetted_models(vetted@) =~= roster::vet_all(roster::entry_models(entries@)));
}

/// Folding applies, in the order of their timestamps and then of their content
/// addresses, exactly the entries that name the network and were found authentic,
/// the last of those that share an address standing for all.
pub proof fn law_folding_applies_in_order(cfg: ConfigModel, s: Seq<VettedModel>, h: Seq<Filed>)
    requires
        forall|i: int, j: int|
            0 <= i < j < h.len() ==> {
                ||| stamp((#[trigger] h[i]).entry) < stamp((#[trigger] h[j]).entry)
                ||| stamp(h[i].entry) == stamp(h[j].entry) && roster::id_less(h[i].id, h[j].id)
            },
        forall|i: int| 0 <= i < h.len() ==> #[trigger] stands(cfg, s, h[i]),
        forall|f: Filed| #[trigger] stands(cfg, s, f) ==> h.contains(f),
    ensures
        roster::folded(cfg, s) == roster::replay(cfg, h),
{
    let m = roster::retained(cfg, s);
    assert forall|i: int| 0 <= i < h.len() implies m.contains_key((#[trigger] h[i]).id) && m[h[i].id]
        == h[i].entry by {
        assert(stands(cfg, s, h[i]));
        let n = choose|n: int| #[trigger] stands_at(cfg, s, h[i], n);
        law_last_of_an_address_stands(cfg, s, n);
    }
    assert forall|k: Seq<u8>| #[trigger] m.contains_key(k) implies roster::files(h, k) by {
        let f = Filed { id: k, entry: m[k] };
        let n = lemma_last_accepted(cfg, s, k);
        assert(stands_at(cfg, s, f, n));
        assert(stands(cfg, s, f));
        assert(h.contains(f));
        assert(h[h.index_of(f)].id == k);
    }
    roster::lemma_folded(cfg, s, h);
}

/// Whether the `n`th of a list is this entry at this address, names the network,
/// was found authentic, and no later one with the address does both.
pub open spec fn stands_at(cfg: ConfigModel, s: Seq<VettedModel>, f: Filed, n: int) -> bool {
    &&& 0 <= n < s.len()
    &&& s[n].id == f.id
    &&& s[n].entry == f.entry
    &&& s[n].entry.network_id == cfg.network_id
    &&& s[n].verified
    &&& forall|j: int|
        n < j < s.len() && (#[trigger] s[j]).entry.network_id == cfg.network_id && s[j].verified ==> s[j].id
            != f.id
}

/// Whether an entry of a list stands for its address.
pub open spec fn stands(cfg: ConfigModel, s: Seq<VettedModel>, f: Filed) -> bool {
    exists|n: int| #[trigger] stands_at(cfg, s, f, n)
}

/// The last of a list that counts at an address.
proof fn lemma_last_accepted(cfg: ConfigModel, s: Seq<VettedModel>, k: Seq<u8>) -> (n: int)
    requires
        roster::retained(cfg, s).contains_key(k),
    ensures
        stands_at(cfg, s, Filed { id: k, entry: roster::retained(cfg, s)[k] }, n),
    decreases s.len(),
{
    let rest = s.drop_last();
    assert(s.last() == s[s.len() - 1]);
    if roster::accepted(cfg, s.last()) && s.last().id == k {
        s.len() - 1
    } else {
        let n = lemma_last_accepted(cfg, rest, k);
        assert forall|j: int|
            n < j < s.len() && (#[trigger] s[j]).entry.network_id == cfg.network_id && s[j].verified implies s[j].id
            != k by {
            if j < rest.len() {
                assert(rest[j] == s[j]);
            }
        }
        assert(rest[n] == s[n]);
        n
    }
}

/// A roster of nothing has no members and is not frozen, and a copy of a roster
/// reads as the roster does.
pub proof fn law_blank_and_copied_rosters(r: &Roster, copy: Roster, blank: Roster)
    requires
        call_ensures(Roster::clone, (r,), copy),
        call_ensures(Roster::default, (), blank),
    ensures
        copy@ == r@,
        blank@.members == Map::<Seq<u8>, MemberModel>::empty(),
        !blank@.frozen,
{
}

} // verus!
