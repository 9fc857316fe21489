//! Replication of the signed roster over a multi-writer document.
//!
//! Each signed [`Entry`] is stored under a content-addressed key (`e/` and the
//! entry's id), so entries never overwrite one another: the document is an
//! append-only set of entries that every member's node folds into the same
//! [`Roster`] by the role rules. The document itself handles the multi-writer
//! sync across the mesh; this module says what is stored, and what of the
//! document's contents is taken up.
//!
//! Security lives entirely in [`Roster::build`]: every member holds the
//! document's write capability, so anyone in the document can append entries,
//! but only entries that pass the role rules affect membership.

use vstd::prelude::*;

use crate::entry;
use crate::entry::{Entry, EntryModel};
use crate::roster;
use crate::roster::{Config, Roster};

verus! {

/// Key prefix for roster entries inside the membership document: `e/`.
pub open spec fn key_prefix() -> Seq<u8> {
    seq![0x65u8, 0x2fu8]
}

/// The key under which an entry is stored.
pub open spec fn key_of(e: EntryModel) -> Seq<u8> {
    key_prefix() + e.id()
}

/// A key and a value to be set in the document.
pub struct Publication {
    pub key: Vec<u8>,
    pub value: Vec<u8>,
}

/// What to set in the membership document for a signed roster entry. Keyed by
/// the entry's content id, so re-publishing the same entry is idempotent and
/// distinct entries coexist.
pub fn publish_entry(entry: &Entry) -> (r: Publication)
    ensures
        r.key@ == key_of(entry@),
        r.value@ == entry::record_form(entry@),
{
    let value = entry.to_bytes();
    let mut key: Vec<u8> = Vec::new();
    key.push(0x65);
    key.push(0x2f);
    let id = entry.id();
    key.extend_from_slice(id.as_slice());
    assert(key@ =~= key_of(entry@));
    Publication { key, value }
}

/// Whether a key of the document is one of a roster entry.
pub fn is_entry_key(key: &[u8]) -> (r: bool)
    ensures
        r == key_prefix().is_prefix_of(key@),
{
    let r = key.len() >= 2 && key[0] == 0x65 && key[1] == 0x2f;
    proof {
        if r {
            assert(key@.subrange(0, 2) =~= key_prefix());
        } else if key_prefix().is_prefix_of(key@) {
            assert(key@[0] == key@.subrange(0, 2)[0]);
            assert(key@[1] == key@.subrange(0, 2)[1]);
        }
    }
    r
}

/// What became of the content behind a key of the document.
pub enum Content {
    /// The content is not synced to this node yet.
    Missing,
    /// The content is there but is no entry.
    Malformed,
    /// The content is an entry.
    Parsed(Entry),
}

/// A key of the document and what became of its content.
pub struct Record {
    pub key: Vec<u8>,
    pub content: Content,
}

/// The entry that a record contributes, if any.
pub open spec fn contributed(r: Record) -> Option<EntryModel> {
    match r.content {
        Content::Parsed(e) if key_prefix().is_prefix_of(r.key@) => Some(e@),
        _ => None,
    }
}

/// The entries that a document's records contribute, in their order.
pub open spec fn loaded(s: Seq<Record>) -> Seq<EntryModel>
    decreases s.len(),
{
    if s.len() == 0 {
        Seq::empty()
    } else {
        match contributed(s.last()) {
            Some(e) => loaded(s.drop_last()).push(e),
            None => loaded(s.drop_last()),
        }
    }
}

/// Every roster entry currently in the document whose content is available
/// locally. Foreign keys, malformed entries and not-yet-synced contents are
/// skipped: a hostile or partial writer can't break the read.
pub fn load_entries(records: Vec<Record>) -> (r: Vec<Entry>)
    ensures
        roster::entry_models(r@) == loaded(records@),
{
    let mut out: Vec<Entry> = Vec::new();
    let ghost all = records@;
    assert(all.take(0) =~= Seq::<Record>::empty());
    assert(roster::entry_models(out@) =~= loaded(all.take(0)));
    for record in it: records.into_iter()
        invariant
            it.seq() == all,
            roster::entry_models(out@) == loaded(all.take(it.index() as int)),
    {
        let ghost i = it.index() as int;
        let ghost before = out@;
        proof {
            assert(all.take(i + 1).drop_last() =~= all.take(i));
            assert(all.take(i + 1).last() == record);
        }
        if is_entry_key(record.key.as_slice()) {
            if let Content::Parsed(e) = record.content {
                out.push(e);
                assert(roster::entry_models(out@) =~= roster::entry_models(before).push(e@));
            }
        }
    }
    assert(all.take(all.len() as int) =~= all);
    out
}

/// Fold the document into the current [`Roster`], applying all role rules.
pub fn build_roster(cfg: &Config, records: Vec<Record>) -> (r: Roster)
    ensures
        r@ == roster::built(cfg@, loaded(records@)),
{
    let entries = load_entries(records);
    Roster::build(cfg, entries.as_slice())
}

// ---------------------------------------------------------------------------
// Laws
// ---------------------------------------------------------------------------

/// The document after an entry is published.
pub open spec fn published(doc: Map<Seq<u8>, Seq<u8>>, e: EntryModel) -> Map<Seq<u8>, Seq<u8>> {
    doc.insert(key_of(e), entry::record_form(e))
}

/// Publishing an entry again changes nothing.
pub proof fn law_republishing_is_idempotent(doc: Map<Seq<u8>, Seq<u8>>, e: EntryModel)
    ensures
        published(published(doc, e), e) == published(doc, e),
{
    assert(published(published(doc, e), e) =~= published(doc, e));
}

/// Entries with different ids do not overwrite one another, in whichever order
/// they are published.
pub proof fn law_entries_coexist(doc: Map<Seq<u8>, Seq<u8>>, e: EntryModel, f: EntryModel)
    requires
        e.id() != f.id(),
    ensures
        published(published(doc, e), f).contains_pair(key_of(e), entry::record_form(e)),
        published(published(doc, e), f).contains_pair(key_of(f), entry::record_form(f)),
        published(published(doc, e), f) == published(published(doc, f), e),
{
    if key_of(e) == key_of(f) {
        assert(e.id() =~= key_of(e).skip(2));
        assert(f.id() =~= key_of(f).skip(2));
    }
    assert(published(published(doc, e), f) =~= published(published(doc, f), e));
}

/// The keys of published entries are entry keys.
pub proof fn law_published_keys_are_entry_keys(e: EntryModel)
    ensures
        key_prefix().is_prefix_of(key_of(e)),
{
    assert(key_of(e).subrange(0, 2) =~= key_prefix());
}

/// Records that contribute no entry are as good as absent.
pub proof fn law_useless_records_are_skipped(s: Seq<Record>)
    ensures
        loaded(s) == loaded(s.filter(|r: Record| contributed(r) is Some)),
    decreases s.len(),
{
    reveal(Seq::filter);
    let p = |r: Record| contributed(r) is Some;
    if s.len() > 0 {
        law_useless_records_are_skipped(s.drop_last());
        if p(s.last()) {
            let g = s.drop_last().filter(p);
            assert(s.filter(p) =~= g.push(s.last()));
            assert(g.push(s.last()).drop_last() =~= g);
        }
    }
}

/// An entry that some record contributes is taken up, and nothing else is.
pub proof fn law_contributed_entries_are_loaded(s: Seq<Record>, e: EntryModel)
    ensures
        loaded(s).contains(e) <==> exists|i: int|
            0 <= i < s.len() && contributed(#[trigger] s[i]) == Some(e),
    decreases s.len(),
{
    if s.len() > 0 {
        let rest = s.drop_last();
        law_contributed_entries_are_loaded(rest, e);
        assert(s.last() == s[s.len() - 1]);
        if exists|i: int| 0 <= i < rest.len() && contributed(#[trigger] rest[i]) == Some(e) {
            let i = choose|i: int| 0 <= i < rest.len() && contributed(#[trigger] rest[i]) == Some(e);
            assert(s[i] == rest[i]);
        }
        if exists|i: int| 0 <= i < s.len() && contributed(#[trigger] s[i]) == Some(e) {
            let i = choose|i: int| 0 <= i < s.len() && contributed(#[trigger] s[i]) == Some(e);
            if i < rest.len() {
                assert(s[i] == rest[i]);
            }
        }
        match contributed(s.last()) {
            Some(f) => {
                let l = loaded(rest);
                assert(l.push(f)[l.len() as int] == f);
                if l.contains(e) {
                    assert(l.push(f)[l.index_of(e)] == e);
                }
                if l.push(f).contains(e) && e != f {
                    assert(l[l.push(f).index_of(e)] == e);
                }
            },
            None => {},
        }
    }
}

/// Whether a record holds an entry under a key that begins with the bytes of
/// `e/`.
pub open spec fn holds_entry(r: Record) -> bool {
    r.content is Parsed && r.key@.len() >= 2 && r.key@[0] == 0x65 && r.key@[1] == 0x2f
}

/// What a single record contributes: its entry, whatever the operation in it is,
/// if it holds one, and nothing otherwise.
pub proof fn law_one_record(r: Record)
    ensures
        r.content matches Content::Parsed(e) ==> (holds_entry(r) ==> loaded(seq![r]) == seq![e@]),
        r.content is Missing || r.content is Malformed ==> loaded(seq![r]) == Seq::<EntryModel>::empty(),
        r.key@.len() < 2 || r.key@[0] != 0x65 || r.key@[1] != 0x2f ==> loaded(seq![r]) == Seq::<
            EntryModel,
        >::empty(),
{
    reveal_with_fuel(loaded, 2);
    let s = seq![r];
    assert(s.drop_last() =~= Seq::<Record>::empty());
    assert(s.last() == r);
    if holds_entry(r) {
        assert(r.key@.subrange(0, 2) =~= key_prefix());
    }
    if key_prefix().is_prefix_of(r.key@) {
        assert(r.key@[0] == r.key@.subrange(0, 2)[0]);
        assert(r.key@[1] == r.key@.subrange(0, 2)[1]);
    }
}

/// The records of a document are taken up one after the other: what two parts of
/// it contribute stands in the order of the parts.
pub proof fn law_records_are_loaded_in_order(s: Seq<Record>, t: Seq<Record>)
    ensures
        loaded(s + t) == loaded(s) + loaded(t),
    decreases t.len(),
{
    if t.len() == 0 {
        assert(s + t =~= s);
        assert(loaded(s) + loaded(t) =~= loaded(s));
    } else {
        assert((s + t).drop_last() =~= s + t.drop_last());
        assert((s + t).last() == t.last());
        law_records_are_loaded_in_order(s, t.drop_last());
        assert(loaded(s + t) =~= loaded(s) + loaded(t));
    }
}

/// Every record that holds an entry contributes it, whatever operation it is and
/// whatever the other records are; what is taken up comes from such a record.
pub proof fn law_held_entries_are_loaded(s: Seq<Record>, i: int)
    requires
        0 <= i < s.len(),
    ensures
        holds_entry(s[i]) ==> loaded(s).contains(s[i].content->Parsed_0@),
        forall|e: EntryModel| #[trigger]
            loaded(s).contains(e) ==> exists|j: int|
                0 <= j < s.len() && holds_entry(#[trigger] s[j]) && s[j].content->Parsed_0@ == e,
{
    if holds_entry(s[i]) {
        assert(s[i].key@.subrange(0, 2) =~= key_prefix());
        law_contributed_entries_are_loaded(s, s[i].content->Parsed_0@);
    }
    assert forall|e: EntryModel| #[trigger] loaded(s).contains(e) implies exists|j: int|
        0 <= j < s.len() && holds_entry(#[trigger] s[j]) && s[j].content->Parsed_0@ == e by {
        law_contributed_entries_are_loaded(s, e);
        let j = choose|j: int| 0 <= j < s.len() && contributed(#[trigger] s[j]) == Some(e);
        assert(s[j].key@[0] == s[j].key@.subrange(0, 2)[0]);
        assert(s[j].key@[1] == s[j].key@.subrange(0, 2)[1]);
        assert(holds_entry(s[j]));
    }
}

/// Reading the records gives as many entries as records hold one, each as it was
/// parsed and in the order of the records.
pub proof fn law_reading_takes_every_entry(records: Vec<Record>, r: Vec<Entry>, i: int)
    requires
        call_ensures(load_entries, (records,), r),
        0 <= i < records@.len(),
        holds_entry(records@[i]),
    ensures
        exists|j: int|
            0 <= j < r@.len() && (#[trigger] r@[j])@ == records@[i].content->Parsed_0@ && j
                == records@.take(i).filter(|x: Record| holds_entry(x)).len(),
        r@.len() == records@.filter(|x: Record| holds_entry(x)).len(),
{
    let s = records@;
    lemma_loaded_len(s);
    lemma_loaded_len(s.take(i));
    let e = s[i].content->Parsed_0@;
    law_one_record(s[i]);
    law_records_are_loaded_in_order(s.take(i), seq![s[i]]);
    law_records_are_loaded_in_order(s.take(i) + seq![s[i]], s.skip(i + 1));
    assert(s =~= s.take(i) + seq![s[i]] + s.skip(i + 1));
    let j = loaded(s.take(i)).len() as int;
    assert(loaded(s)[j] == e);
    assert(roster::entry_models(r@)[j] == r@[j]@);
    assert(r@.len() == roster::entry_models(r@).len());
}

/// As many entries are taken up as records hold one.
proof fn lemma_loaded_len(s: Seq<Record>)
    ensures
        loaded(s).len() == s.filter(|x: Record| holds_entry(x)).len(),
    decreases s.len(),
{
    reveal(Seq::filter);
    if s.len() > 0 {
        lemma_loaded_len(s.drop_last());
        law_one_record(s.last());
        law_records_are_loaded_in_order(s.drop_last(), seq![s.last()]);
        assert(s =~= s.drop_last() + seq![s.last()]);
    }
}

/// A key belongs to an entry exactly if it begins with the bytes of `e/`.
pub proof fn law_entry_keys_begin_with_the_prefix(key: &[u8], r: bool)
    requires
        call_ensures(is_entry_key, (key,), r),
    ensures
        r <==> key@.len() >= 2 && key@[0] == 0x65 && key@[1] == 0x2f,
{
    if key_prefix().is_prefix_of(key@) {
        assert(key@[0] == key@.subrange(0, 2)[0]);
        assert(key@[1] == key@.subrange(0, 2)[1]);
    }
    if key@.len() >= 2 && key@[0] == 0x65 && key@[1] == 0x2f {
        assert(key@.subrange(0, 2) =~= key_prefix());
    }
}

/// An entry is published under `e/` and its content address, nothing more and
/// nothing less, and a node that reads the record back takes the entry up.
pub proof fn law_published_entries_are_loaded(entry: &Entry, p: Publication, r: Record, f: Entry)
    requires
        call_ensures(publish_entry, (entry,), p),
        r.key@ == p.key@,
        r.content == Content::Parsed(f),
        f@ == entry@,
    ensures
        p.key@[0] == 0x65,
        p.key@[1] == 0x2f,
        p.key@.skip(2) == entry@.id(),
        loaded(seq![r]) == seq![entry@],
{
    assert(key_of(entry@).skip(2) =~= entry@.id());
    law_one_record(r);
}

/// What is stored for an entry is its bytes, under `e/` and its content address.
pub proof fn law_publications_hold_the_bytes(entry: &Entry, p: Publication, bytes: Vec<u8>, id: [u8; 32])
    requires
        call_ensures(publish_entry, (entry,), p),
        call_ensures(Entry::to_bytes, (entry,), bytes),
        call_ensures(Entry::id, (entry,), id),
    ensures
        p.value@ == bytes@,
        p.key@ == seq![0x65u8, 0x2fu8] + id@,
        p.key@.len() == 34,
{
}

/// The roster of a document is the roster of the entries read from it.
pub proof fn law_roster_is_built_from_the_entries(
    cfg: &Config,
    records: Vec<Record>,
    r: Roster,
    entries: Vec<Entry>,
    slice: &[Entry],
    b: Roster,
)
    requires
        call_ensures(build_roster, (cfg, records), r),
        call_ensures(load_entries, (records,), entries),
        slice@ == entries@,
        call_ensures(Roster::build, (cfg, slice), b),
    ensures
        r@ == b@,
{
}

} // verus!
