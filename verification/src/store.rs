use vstd::prelude::*;

verus! {

use crate::records::{ident_of, Record, RecordIdentity, RecordV};
use crate::text::str_eq;
use crate::vecmap::{distinct_seq, lemma_take_step, DeepEq, VecMap};

/// A record identity as the contracts see it: the views of tag and id.
pub type IdV = (Seq<char>, Seq<char>);

/// The base map described by a record sequence, keyed by identity; a later
/// record with the same identity wins.
pub open spec fn records_by_id(rs: Seq<RecordV>) -> Map<IdV, RecordV>
    decreases rs.len(),
{
    if rs.len() == 0 {
        Map::empty()
    } else {
        records_by_id(rs.drop_last()).insert((rs.last().tag, rs.last().id), rs.last())
    }
}

/// The overlay after pruning: only entries that differ from the base entry
/// of the same identity (or shadow no base entry at all) survive.
pub open spec fn pruned(o: Map<IdV, RecordV>, b: Map<IdV, RecordV>) -> Map<IdV, RecordV> {
    Map::new(
        |k: IdV| o.dom().contains(k) && !(b.dom().contains(k) && b[k] == o[k]),
        |k: IdV| o[k],
    )
}

/// Every record of the map sits under the identity its own fields derive.
pub open spec fn coherent(m: Map<IdV, RecordV>) -> bool {
    forall|k: IdV| #[trigger] m.dom().contains(k) ==> ident_of(m[k]) == k
}

proof fn lemma_records_by_id_coherent(rs: Seq<RecordV>)
    ensures
        coherent(records_by_id(rs)),
    decreases rs.len(),
{
    if rs.len() > 0 {
        lemma_records_by_id_coherent(rs.drop_last());
    }
}

/// Whether some record in the map is a file header.
pub open spec fn has_header(m: Map<IdV, RecordV>) -> bool {
    exists|k: IdV| #[trigger] m.dom().contains(k) && k.0 == "TES3"@
}

/// The identities of a record sequence, in order.
pub open spec fn idents_of(s: Seq<RecordV>) -> Seq<IdV> {
    s.map_values(|r: RecordV| ident_of(r))
}

/// Why a record set cannot be written out.
#[derive(Clone, Copy, PartialEq, Eq, Structural, Debug)]
pub enum SaveError {
    MissingHeader,
}

/// What a patch save does when neither the overlay nor the base holds a
/// header record: refuse, or synthesize a default header.
#[derive(Clone, Copy, PartialEq, Eq, Structural, Debug)]
pub enum HeaderPolicy {
    RequireHeader,
    SynthesizeHeader,
}

/// Law: pruning is idempotent — pruning an overlay a second time against
/// the same base changes nothing.
pub proof fn lemma_prune_idempotent(o: Map<IdV, RecordV>, b: Map<IdV, RecordV>)
    ensures
        pruned(pruned(o, b), b) == pruned(o, b),
{
    assert(pruned(pruned(o, b), b) =~= pruned(o, b));
}

/// Per-plugin record holder: the records as loaded (never mutated in
/// place) and a copy-on-write overlay of pending edits that shadows them.
pub struct RecordStore {
    base: VecMap<RecordIdentity, Record>,
    overlay: VecMap<RecordIdentity, Record>,
    selected: Option<RecordIdentity>,
}

impl RecordStore {
    /// The records as loaded, keyed by identity.
    pub closed spec fn base_map(&self) -> Map<IdV, RecordV> {
        self.base@
    }

    /// The pending edits, keyed by identity.
    pub closed spec fn overlay_map(&self) -> Map<IdV, RecordV> {
        self.overlay@
    }

    /// The identity the editor currently shows, if any.
    pub closed spec fn sel(&self) -> Option<IdV> {
        self.selected.deep_view()
    }

    /// The record an identity resolves to: the overlay entry if present,
    /// else the base entry, else nothing.
    pub open spec fn effective(&self, k: IdV) -> Option<RecordV> {
        if self.overlay_map().dom().contains(k) {
            Some(self.overlay_map()[k])
        } else if self.base_map().dom().contains(k) {
            Some(self.base_map()[k])
        } else {
            None
        }
    }

    pub closed spec fn wf(&self) -> bool {
        &&& self.base.wf()
        &&& self.overlay.wf()
        &&& coherent(self.base@)
        &&& coherent(self.overlay@)
    }

    /// The effective record set: the base shadowed by the overlay.
    pub open spec fn merged(&self) -> Map<IdV, RecordV> {
        self.base_map().union_prefer_right(self.overlay_map())
    }

    pub fn new() -> (r: Self)
        ensures
            r.wf(),
            r.base_map() == Map::<IdV, RecordV>::empty(),
            r.overlay_map() == Map::<IdV, RecordV>::empty(),
            r.sel() is None,
    {
        RecordStore { base: VecMap::new(), overlay: VecMap::new(), selected: None }
    }

    /// Replaces the whole base record set, keyed by identity (a later
    /// record with a duplicate identity wins), and discards the overlay
    /// and the selection.
    pub fn load_records(&mut self, records: &Vec<Record>)
        requires
            old(self).wf(),
        ensures
            final(self).wf(),
            final(self).base_map() == records_by_id(records.deep_view()),
            final(self).overlay_map() == Map::<IdV, RecordV>::empty(),
            final(self).sel() is None,
    {
        let mut base: VecMap<RecordIdentity, Record> = VecMap::new();
        let n = records.len();
        let mut i: usize = 0;
        while i < n
            invariant
                n == records@.len(),
                i <= n,
                base.wf(),
                base@ == records_by_id(records.deep_view().take(i as int)),
            decreases n - i,
        {
            let rec = &records[i];
            base.insert(rec.identity(), rec.dup());
            proof {
                let dv = records.deep_view();
                assert(dv.take(i + 1).drop_last() =~= dv.take(i as int));
                assert(dv.take(i + 1).last() == dv[i as int]);
                assert(dv[i as int] == records@[i as int].deep_view());
            }
            i = i + 1;
        }
        proof {
            assert(records.deep_view().take(n as int) =~= records.deep_view());
            lemma_records_by_id_coherent(records.deep_view());
        }
        self.base = base;
        self.overlay = VecMap::new();
        self.selected = None;
    }

    /// The effective record for the identity, if either map holds one.
    pub fn get_effective(&self, id: &RecordIdentity) -> (r: Option<&Record>)
        requires
            self.wf(),
        ensures
            match r {
                Some(rec) => self.effective(id.deep_view()) == Some(rec.deep_view()),
                None => self.effective(id.deep_view()) is None,
            },
    {
        match self.overlay.get(id) {
            Some(rec) => Some(rec),
            None => self.base.get(id),
        }
    }

    /// Copy-on-write entry point: clones the effective record into the
    /// overlay unless an overlay entry already exists. Asking for an
    /// identity absent from both maps does nothing.
    pub fn begin_edit(&mut self, id: &RecordIdentity)
        requires
            old(self).wf(),
        ensures
            final(self).wf(),
            final(self).base_map() == old(self).base_map(),
            final(self).sel() == old(self).sel(),
            final(self).overlay_map() == if old(self).overlay_map().dom().contains(id.deep_view())
                || !old(self).base_map().dom().contains(id.deep_view()) {
                old(self).overlay_map()
            } else {
                old(self).overlay_map().insert(
                    id.deep_view(),
                    old(self).base_map()[id.deep_view()],
                )
            },
    {
        if !self.overlay.contains_key(id) {
            let copied = match self.base.get(id) {
                Some(rec) => Some(rec.dup()),
                None => None,
            };
            if let Some(rec) = copied {
                self.overlay.insert(id.dup(), rec);
            }
        }
    }

    /// Drops every overlay entry that is value-equal to the base entry of
    /// the same identity, so that the overlay holds dirty records only.
    pub fn commit_prune(&mut self)
        requires
            old(self).wf(),
        ensures
            final(self).wf(),
            final(self).base_map() == old(self).base_map(),
            final(self).sel() == old(self).sel(),
            final(self).overlay_map() == pruned(old(self).overlay_map(), old(self).base_map()),
    {
        let ghost o = self.overlay@;
        let ghost b = self.base@;
        proof {
            self.overlay.lemma_entries();
        }
        let mut kept: VecMap<RecordIdentity, Record> = VecMap::new();
        let n = self.overlay.len();
        let mut i: usize = 0;
        while i < n
            invariant
                self.wf(),
                self.overlay@ == o,
                self.base@ == b,
                n as nat == self.overlay.spec_len(),
                i <= n,
                kept.wf(),
                kept@ =~= Map::new(
                    |k: IdV| self.overlay.key_seq().take(i as int).contains(k) && !(b.dom().contains(
                        k,
                    ) && b[k] == o[k]),
                    |k: IdV| o[k],
                ),
            decreases n - i,
        {
            let key = self.overlay.key_at(i);
            let val = self.overlay.val_at(i);
            let keep = match self.base.get(key) {
                Some(bv) => !bv.deq(val),
                None => true,
            };
            let ghost ks = self.overlay.key_seq();
            if keep {
                let kd = key.dup();
                let vd = val.dup();
                kept.insert(kd, vd);
            }
            proof {
                lemma_take_step(ks, i as int);
                assert(kept@ =~= Map::new(
                    |k: IdV| ks.take(i + 1).contains(k) && !(b.dom().contains(k) && b[k] == o[k]),
                    |k: IdV| o[k],
                ));
            }
            i = i + 1;
        }
        proof {
            self.overlay.lemma_entries();
            assert(self.overlay.key_seq().take(n as int) =~= self.overlay.key_seq());
            assert(kept@ =~= pruned(o, b));
        }
        self.overlay = kept;
    }

    /// Moves an overlay entry whose identity-deriving fields were edited
    /// to its new identity, rewriting the tag and editor id to match (an
    /// existing entry there is overwritten deliberately), drops the stale
    /// base entry, and remaps the selection. Does nothing when the overlay
    /// has no entry under the old identity.
    pub fn rekey(&mut self, old_id: &RecordIdentity, new_id: &RecordIdentity)
        requires
            old(self).wf(),
        ensures
            final(self).wf(),
            old(self).overlay_map().dom().contains(old_id.deep_view()) ==> {
                &&& final(self).overlay_map() == old(self).overlay_map().remove(
                    old_id.deep_view(),
                ).insert(
                    new_id.deep_view(),
                    RecordV {
                        tag: new_id.deep_view().0,
                        id: new_id.deep_view().1,
                        body: old(self).overlay_map()[old_id.deep_view()].body,
                    },
                )
                &&& final(self).base_map() == old(self).base_map().remove(old_id.deep_view())
                &&& final(self).sel() == if old(self).sel() == Some(old_id.deep_view()) {
                    Some(new_id.deep_view())
                } else {
                    old(self).sel()
                }
            },
            !old(self).overlay_map().dom().contains(old_id.deep_view()) ==> {
                &&& final(self).overlay_map() == old(self).overlay_map()
                &&& final(self).base_map() == old(self).base_map()
                &&& final(self).sel() == old(self).sel()
            },
    {
        let moved = match self.overlay.get(old_id) {
            Some(rec) => Some(rec.dup()),
            None => None,
        };
        if let Some(rec) = moved {
            let renamed = Record {
                tag: new_id.tag.clone(),
                id: new_id.id.clone(),
                body: rec.body,
            };
            self.overlay.remove(old_id);
            self.overlay.insert(new_id.dup(), renamed);
            self.base.remove(old_id);
            let remap = match &self.selected {
                Some(sel) => sel.deq(old_id),
                None => false,
            };
            if remap {
                self.selected = Some(new_id.dup());
            }
        }
    }

    /// Marks an identity as the one the editor shows.
    pub fn select(&mut self, id: Option<RecordIdentity>)
        requires
            old(self).wf(),
        ensures
            final(self).wf(),
            final(self).base_map() == old(self).base_map(),
            final(self).overlay_map() == old(self).overlay_map(),
            final(self).sel() == id.deep_view(),
    {
        self.selected = id;
    }

    /// The identity the editor currently shows.
    pub fn selected_id(&self) -> (r: Option<&RecordIdentity>)
        ensures
            match r {
                Some(id) => self.sel() == Some(id.deep_view()),
                None => self.sel() is None,
            },
    {
        self.selected.as_ref()
    }

    /// Reverts a pending edit: the overlay entry is dropped and the base
    /// record becomes effective again.
    pub fn revert(&mut self, id: &RecordIdentity)
        requires
            old(self).wf(),
        ensures
            final(self).wf(),
            final(self).base_map() == old(self).base_map(),
            final(self).sel() == old(self).sel(),
            final(self).overlay_map() == old(self).overlay_map().remove(id.deep_view()),
    {
        self.overlay.remove(id);
    }

    /// Stores an edited record in the overlay, under the identity the
    /// record's own fields derive.
    pub fn put_overlay(&mut self, rec: Record)
        requires
            old(self).wf(),
        ensures
            final(self).wf(),
            final(self).base_map() == old(self).base_map(),
            final(self).sel() == old(self).sel(),
            final(self).overlay_map() == old(self).overlay_map().insert(
                ident_of(rec.deep_view()),
                rec.deep_view(),
            ),
    {
        let id = rec.identity();
        self.overlay.insert(id, rec);
    }

    /// Assembles the effective record set (base shadowed by overlay) into
    /// a full record sequence, header first: every effective record appears
    /// exactly once, under its own identity. Without a header record the
    /// set cannot be written out, and the error says so.
    pub fn assemble_full(&self) -> (r: Result<Vec<Record>, SaveError>)
        requires
            self.wf(),
        ensures
            match r {
                Ok(v) => {
                    &&& v.deep_view().len() > 0
                    &&& v.deep_view()[0].tag == "TES3"@
                    &&& distinct_seq(idents_of(v.deep_view()))
                    &&& forall|i: int|
                        0 <= i < v.deep_view().len() ==> self.merged().dom().contains(
                            ident_of(#[trigger] v.deep_view()[i]),
                        ) && self.merged()[ident_of(v.deep_view()[i])] == v.deep_view()[i]
                    &&& forall|k: IdV| #[trigger]
                        self.merged().dom().contains(k) ==> idents_of(v.deep_view()).contains(k)
                },
                Err(e) => e == SaveError::MissingHeader && !has_header(self.merged()),
            },
    {
        let ghost u = self.merged();
        // the effective record set, in base order then overlay order
        let mut eff: VecMap<RecordIdentity, Record> = VecMap::new();
        proof {
            self.base.lemma_entries();
        }
        let bn = self.base.len();
        let mut i: usize = 0;
        while i < bn
            invariant
                self.wf(),
                bn as nat == self.base.spec_len(),
                i <= bn,
                eff.wf(),
                eff@ =~= Map::new(
                    |k: IdV| self.base.key_seq().take(i as int).contains(k),
                    |k: IdV| self.base@[k],
                ),
            decreases bn - i,
        {
            let key = self.base.key_at(i);
            let val = self.base.val_at(i);
            eff.insert(key.dup(), val.dup());
            proof {
                lemma_take_step(self.base.key_seq(), i as int);
                assert(eff@ =~= Map::new(
                    |k: IdV| self.base.key_seq().take(i + 1).contains(k),
                    |k: IdV| self.base@[k],
                ));
            }
            i = i + 1;
        }
        proof {
            self.base.lemma_entries();
            assert(self.base.key_seq().take(bn as int) =~= self.base.key_seq());
            assert forall|k: IdV| #[trigger] self.base.key_seq().contains(k) <==> self.base@.dom().contains(
                k,
            ) by {
                if self.base.key_seq().contains(k) {
                    let x = choose|x: int|
                        0 <= x < self.base.key_seq().len() && self.base.key_seq()[x] == k;
                    assert(self.base@.dom().contains(self.base.key_seq()[x]));
                }
            }
            assert(eff@ =~= self.base@);
            self.overlay.lemma_entries();
        }
        let on = self.overlay.len();
        let mut i: usize = 0;
        while i < on
            invariant
                self.wf(),
                on as nat == self.overlay.spec_len(),
                i <= on,
                eff.wf(),
                eff@ =~= Map::new(
                    |k: IdV| self.base@.dom().contains(k) || self.overlay.key_seq().take(
                        i as int,
                    ).contains(k),
                    |k: IdV|
                        if self.overlay.key_seq().take(i as int).contains(k) {
                            self.overlay@[k]
                        } else {
                            self.base@[k]
                        },
                ),
            decreases on - i,
        {
            let key = self.overlay.key_at(i);
            let val = self.overlay.val_at(i);
            eff.insert(key.dup(), val.dup());
            proof {
                lemma_take_step(self.overlay.key_seq(), i as int);
                assert(eff@ =~= Map::new(
                    |k: IdV| self.base@.dom().contains(k) || self.overlay.key_seq().take(
                        i + 1,
                    ).contains(k),
                    |k: IdV|
                        if self.overlay.key_seq().take(i + 1).contains(k) {
                            self.overlay@[k]
                        } else {
                            self.base@[k]
                        },
                ));
            }
            i = i + 1;
        }
        proof {
            self.overlay.lemma_entries();
            assert(self.overlay.key_seq().take(on as int) =~= self.overlay.key_seq());
            assert forall|k: IdV| #[trigger] self.overlay.key_seq().contains(k)
                <==> self.overlay@.dom().contains(k) by {
                if self.overlay.key_seq().contains(k) {
                    let x = choose|x: int|
                        0 <= x < self.overlay.key_seq().len() && self.overlay.key_seq()[x] == k;
                    assert(self.overlay@.dom().contains(self.overlay.key_seq()[x]));
                }
            }
            assert(eff@ =~= u);
            eff.lemma_entries();
        }
        let ghost kseq = eff.key_seq();
        let en = eff.len();
        // find a header record
        let mut t: usize = 0;
        while t < en
            invariant
                self.wf(),
                en as nat == eff.spec_len(),
                t <= en,
                eff.wf(),
                eff@ =~= u,
                u == self.merged(),
                kseq == eff.key_seq(),
                forall|j: int| 0 <= j < t ==> (#[trigger] kseq[j]).0 != "TES3"@,
            decreases en - t,
        {
            let key = eff.key_at(t);
            if str_eq(key.tag.as_str(), "TES3") {
                // assemble, header first
                let ghost hk = kseq[t as int];
                proof {
                    eff.lemma_entries();
                    assert(coherent(u));
                }
                let mut out: Vec<Record> = Vec::new();
                let hval = eff.val_at(t);
                let ghost hdv = hval.deep_view();
                out.push(hval.dup());
                proof {
                    assert(u.dom().contains(hk));
                    assert(ident_of(hdv) == hk);
                    assert(out.deep_view() =~= seq![hdv]);
                    assert(idents_of(out.deep_view()) =~= seq![hk]);
                }
                let mut w: usize = 0;
                while w < en
                    invariant
                        en as nat == eff.spec_len(),
                        t < en,
                        w <= en,
                        eff.wf(),
                        eff@ =~= u,
                        coherent(u),
                        kseq == eff.key_seq(),
                        hk == kseq[t as int],
                        idents_of(out.deep_view()) =~= seq![hk] + if w <= t {
                            kseq.take(w as int)
                        } else {
                            kseq.take(w as int).remove(t as int)
                        },
                        forall|i: int|
                            0 <= i < out.deep_view().len() ==> u.dom().contains(
                                ident_of(#[trigger] out.deep_view()[i]),
                            ) && u[ident_of(out.deep_view()[i])] == out.deep_view()[i],
                    decreases en - w,
                {
                    if w != t {
                        let val = eff.val_at(w);
                        let ghost pre = out.deep_view();
                        let ghost vdv = val.deep_view();
                        out.push(val.dup());
                        proof {
                            assert(u.dom().contains(kseq[w as int]));
                            assert(ident_of(vdv) == kseq[w as int]);
                            assert(out.deep_view() =~= pre.push(vdv));
                            assert(idents_of(out.deep_view()) =~= idents_of(pre).push(
                                kseq[w as int],
                            ));
                            if w < t {
                                assert(idents_of(out.deep_view()) =~= seq![hk] + kseq.take(w + 1));
                            } else {
                                assert(kseq.take(w + 1).remove(t as int) =~= kseq.take(
                                    w as int,
                                ).remove(t as int).push(kseq[w as int]));
                                assert(idents_of(out.deep_view()) =~= seq![hk] + kseq.take(
                                    w + 1,
                                ).remove(t as int));
                            }
                        }
                    } else {
                        proof {
                            assert(kseq.take(t + 1).remove(t as int) =~= kseq.take(t as int));
                        }
                    }
                    w = w + 1;
                }
                proof {
                    eff.lemma_entries();
                    assert(kseq.take(en as int) =~= kseq);
                    let ids = idents_of(out.deep_view());
                    assert(ids =~= seq![hk] + kseq.remove(t as int));
                    assert forall|a: int, b: int| 0 <= a < b < ids.len() implies ids[a]
                        != ids[b] by {
                        let xa: int = if a == 0 {
                            t as int
                        } else if a - 1 < t {
                            a - 1
                        } else {
                            a
                        };
                        let xb: int = if b - 1 < t {
                            b - 1
                        } else {
                            b
                        };
                        assert(ids[a] == kseq[xa]);
                        assert(ids[b] == kseq[xb]);
                        assert(xa != xb);
                    }
                    assert forall|k: IdV| #[trigger] u.dom().contains(k) implies ids.contains(
                        k,
                    ) by {
                        assert(kseq.contains(k));
                        let x = choose|x: int| 0 <= x < kseq.len() && kseq[x] == k;
                        if x == t {
                            assert(ids[0] == k);
                        } else if x < t {
                            assert(ids[1 + x] == kseq.remove(t as int)[x]);
                            assert(ids[1 + x] == k);
                        } else {
                            assert(ids[x] == kseq.remove(t as int)[x - 1]);
                            assert(ids[x] == k);
                        }
                    }
                    assert(out.deep_view()[0].tag == "TES3"@);
                }
                return Ok(out);
            }
            t = t + 1;
        }
        proof {
            eff.lemma_entries();
            assert forall|k: IdV| #[trigger] u.dom().contains(k) implies k.0 != "TES3"@ by {
                assert(kseq.contains(k));
                let x = choose|x: int| 0 <= x < kseq.len() && kseq[x] == k;
                assert(kseq[x].0 != "TES3"@);
            }
        }
        Err(SaveError::MissingHeader)
    }

    /// The overlay records behind a given header record, which must not
    /// collide with any overlay identity.
    fn overlay_with_header(&self, hdr: Record) -> (v: Vec<Record>)
        requires
            self.wf(),
            forall|k: IdV| #[trigger] self.overlay_map().dom().contains(k) ==> k.0 != "TES3"@,
            ident_of(hdr.deep_view()).0 == "TES3"@,
        ensures
            v.deep_view().len() > 0,
            v.deep_view()[0] == hdr.deep_view(),
            distinct_seq(idents_of(v.deep_view())),
            forall|i: int|
                1 <= i < v.deep_view().len() ==> self.overlay_map().dom().contains(
                    ident_of(#[trigger] v.deep_view()[i]),
                ) && self.overlay_map()[ident_of(v.deep_view()[i])] == v.deep_view()[i],
            forall|k: IdV| #[trigger]
                self.overlay_map().dom().contains(k) ==> idents_of(v.deep_view()).contains(k),
    {
        let ghost o = self.overlay@;
        let ghost okseq = self.overlay.key_seq();
        let ghost hk = ident_of(hdr.deep_view());
        proof {
            self.overlay.lemma_entries();
        }
        let mut out: Vec<Record> = Vec::new();
        let ghost hdv = hdr.deep_view();
        out.push(hdr);
        proof {
            assert(out.deep_view() =~= seq![hdv]);
            assert(idents_of(out.deep_view()) =~= seq![hk]);
        }
        let on = self.overlay.len();
        let mut w: usize = 0;
        while w < on
            invariant
                self.wf(),
                on as nat == self.overlay.spec_len(),
                w <= on,
                o == self.overlay@,
                okseq == self.overlay.key_seq(),
                hk == ident_of(hdv),
                idents_of(out.deep_view()) =~= seq![hk] + okseq.take(w as int),
                out.deep_view().len() == w + 1,
                out.deep_view()[0] == hdv,
                forall|i: int|
                    1 <= i < out.deep_view().len() ==> o.dom().contains(
                        ident_of(#[trigger] out.deep_view()[i]),
                    ) && o[ident_of(out.deep_view()[i])] == out.deep_view()[i],
            decreases on - w,
        {
            let val = self.overlay.val_at(w);
            let ghost pre = out.deep_view();
            let ghost vdv = val.deep_view();
            out.push(val.dup());
            proof {
                self.overlay.lemma_entries();
                assert(o.dom().contains(okseq[w as int]));
                assert(ident_of(vdv) == okseq[w as int]);
                assert(out.deep_view() =~= pre.push(vdv));
                assert(idents_of(out.deep_view()) =~= idents_of(pre).push(okseq[w as int]));
                assert(idents_of(out.deep_view()) =~= seq![hk] + okseq.take(w + 1));
            }
            w = w + 1;
        }
        proof {
            self.overlay.lemma_entries();
            assert(okseq.take(on as int) =~= okseq);
            let ids = idents_of(out.deep_view());
            assert(ids =~= seq![hk] + okseq);
            assert forall|a: int, b: int| 0 <= a < b < ids.len() implies ids[a] != ids[b] by {
                if a == 0 {
                    assert(self.overlay_map().dom().contains(okseq[b - 1]));
                    assert(ids[b] == okseq[b - 1]);
                    assert(ids[b].0 != "TES3"@);
                    assert(ids[a].0 == "TES3"@);
                } else {
                    assert(ids[a] == okseq[a - 1] && ids[b] == okseq[b - 1]);
                }
            }
            assert forall|k: IdV| #[trigger] o.dom().contains(k) implies ids.contains(k) by {
                assert(okseq.contains(k));
                let x = choose|x: int| 0 <= x < okseq.len() && okseq[x] == k;
                assert(ids[1 + x] == k);
            }
        }
        out
    }

    /// Assembles the pending edits into a patch record sequence, header
    /// first: the overlay's own header if it holds one, else the base
    /// header, else — by policy — a synthesized default header or a
    /// refusal.
    pub fn assemble_patch(&self, policy: HeaderPolicy) -> (r: Result<Vec<Record>, SaveError>)
        requires
            self.wf(),
        ensures
            match r {
                Ok(v) => {
                    &&& v.deep_view().len() > 0
                    &&& v.deep_view()[0].tag == "TES3"@
                    &&& distinct_seq(idents_of(v.deep_view()))
                    &&& forall|k: IdV| #[trigger]
                        self.overlay_map().dom().contains(k) ==> idents_of(
                            v.deep_view(),
                        ).contains(k)
                    &&& (has_header(self.overlay_map()) ==> forall|i: int|
                        0 <= i < v.deep_view().len() ==> self.overlay_map().dom().contains(
                            ident_of(#[trigger] v.deep_view()[i]),
                        ) && self.overlay_map()[ident_of(v.deep_view()[i])] == v.deep_view()[i])
                    &&& (!has_header(self.overlay_map()) ==> forall|i: int|
                        1 <= i < v.deep_view().len() ==> self.overlay_map().dom().contains(
                            ident_of(#[trigger] v.deep_view()[i]),
                        ) && self.overlay_map()[ident_of(v.deep_view()[i])] == v.deep_view()[i])
                    &&& (!has_header(self.overlay_map()) && has_header(self.base_map())
                        ==> self.base_map().dom().contains(ident_of(v.deep_view()[0]))
                        && self.base_map()[ident_of(v.deep_view()[0])] == v.deep_view()[0])
                    &&& (!has_header(self.overlay_map()) && !has_header(self.base_map()) ==> {
                        &&& policy == HeaderPolicy::SynthesizeHeader
                        &&& v.deep_view()[0] == crate::records::default_record_v(
                            crate::tags::ERecordType::TES3,
                        )
                    })
                },
                Err(e) => {
                    &&& e == SaveError::MissingHeader
                    &&& policy == HeaderPolicy::RequireHeader
                    &&& !has_header(self.overlay_map())
                    &&& !has_header(self.base_map())
                },
            },
    {
        let ghost o = self.overlay@;
        let ghost okseq = self.overlay.key_seq();
        proof {
            self.overlay.lemma_entries();
        }
        // a header among the pending edits wins
        let on = self.overlay.len();
        let mut t: usize = 0;
        while t < on
            invariant
                self.wf(),
                on as nat == self.overlay.spec_len(),
                t <= on,
                o == self.overlay@,
                okseq == self.overlay.key_seq(),
                forall|j: int| 0 <= j < t ==> (#[trigger] okseq[j]).0 != "TES3"@,
            decreases on - t,
        {
            let key = self.overlay.key_at(t);
            if str_eq(key.tag.as_str(), "TES3") {
                let ghost hk = okseq[t as int];
                proof {
                    self.overlay.lemma_entries();
                    assert(o.dom().contains(hk));
                }
                let mut out: Vec<Record> = Vec::new();
                let hval = self.overlay.val_at(t);
                let ghost hdv = hval.deep_view();
                out.push(hval.dup());
                proof {
                    assert(ident_of(hdv) == hk);
                    assert(out.deep_view() =~= seq![hdv]);
                    assert(idents_of(out.deep_view()) =~= seq![hk]);
                }
                let mut w: usize = 0;
                while w < on
                    invariant
                        self.wf(),
                        on as nat == self.overlay.spec_len(),
                        t < on,
                        w <= on,
                        o == self.overlay@,
                        okseq == self.overlay.key_seq(),
                        hk == okseq[t as int],
                        idents_of(out.deep_view()) =~= seq![hk] + if w <= t {
                            okseq.take(w as int)
                        } else {
                            okseq.take(w as int).remove(t as int)
                        },
                        forall|i: int|
                            0 <= i < out.deep_view().len() ==> o.dom().contains(
                                ident_of(#[trigger] out.deep_view()[i]),
                            ) && o[ident_of(out.deep_view()[i])] == out.deep_view()[i],
                    decreases on - w,
                {
                    if w != t {
                        let val = self.overlay.val_at(w);
                        let ghost pre = out.deep_view();
                        let ghost vdv = val.deep_view();
                        out.push(val.dup());
                        proof {
                            self.overlay.lemma_entries();
                            assert(o.dom().contains(okseq[w as int]));
                            assert(ident_of(vdv) == okseq[w as int]);
                            assert(out.deep_view() =~= pre.push(vdv));
                            assert(idents_of(out.deep_view()) =~= idents_of(pre).push(
                                okseq[w as int],
                            ));
                            if w < t {
                                assert(idents_of(out.deep_view()) =~= seq![hk] + okseq.take(w + 1));
                            } else {
                                assert(okseq.take(w + 1).remove(t as int) =~= okseq.take(
                                    w as int,
                                ).remove(t as int).push(okseq[w as int]));
                                assert(idents_of(out.deep_view()) =~= seq![hk] + okseq.take(
                                    w + 1,
                                ).remove(t as int));
                            }
                        }
                    } else {
                        proof {
                            assert(okseq.take(t + 1).remove(t as int) =~= okseq.take(t as int));
                        }
                    }
                    w = w + 1;
                }
                proof {
                    self.overlay.lemma_entries();
                    assert(okseq.take(on as int) =~= okseq);
                    let ids = idents_of(out.deep_view());
                    assert(ids =~= seq![hk] + okseq.remove(t as int));
                    assert forall|a: int, b: int| 0 <= a < b < ids.len() implies ids[a]
                        != ids[b] by {
                        let xa: int = if a == 0 {
                            t as int
                        } else if a - 1 < t {
                            a - 1
                        } else {
                            a
                        };
                        let xb: int = if b - 1 < t {
                            b - 1
                        } else {
                            b
                        };
                        assert(ids[a] == okseq[xa]);
                        assert(ids[b] == okseq[xb]);
                        assert(xa != xb);
                    }
                    assert forall|k: IdV| #[trigger] o.dom().contains(k) implies ids.contains(
                        k,
                    ) by {
                        assert(okseq.contains(k));
                        let x = choose|x: int| 0 <= x < okseq.len() && okseq[x] == k;
                        if x == t {
                            assert(ids[0] == k);
                        } else if x < t {
                            assert(ids[1 + x] == okseq.remove(t as int)[x]);
                            assert(ids[1 + x] == k);
                        } else {
                            assert(ids[x] == okseq.remove(t as int)[x - 1]);
                            assert(ids[x] == k);
                        }
                    }
                    assert(has_header(o));
                    assert(out.deep_view()[0].tag == "TES3"@);
                }
                return Ok(out);
            }
            t = t + 1;
        }
        proof {
            self.overlay.lemma_entries();
            assert forall|k: IdV| #[trigger] o.dom().contains(k) implies k.0 != "TES3"@ by {
                assert(okseq.contains(k));
                let x = choose|x: int| 0 <= x < okseq.len() && okseq[x] == k;
                assert(okseq[x].0 != "TES3"@);
            }
            assert(!has_header(o));
        }
        // else the base header stands in
        let ghost bkseq = self.base.key_seq();
        proof {
            self.base.lemma_entries();
        }
        let bn = self.base.len();
        let mut t: usize = 0;
        while t < bn
            invariant
                self.wf(),
                bn as nat == self.base.spec_len(),
                t <= bn,
                o == self.overlay@,
                bkseq == self.base.key_seq(),
                !has_header(o),
                forall|k: IdV| #[trigger] o.dom().contains(k) ==> k.0 != "TES3"@,
                forall|j: int| 0 <= j < t ==> (#[trigger] bkseq[j]).0 != "TES3"@,
            decreases bn - t,
        {
            let key = self.base.key_at(t);
            if str_eq(key.tag.as_str(), "TES3") {
                let hval = self.base.val_at(t);
                proof {
                    self.base.lemma_entries();
                    assert(self.base@.dom().contains(bkseq[t as int]));
                    assert(ident_of(hval.deep_view()) == bkseq[t as int]);
                    assert(has_header(self.base@));
                }
                let out = self.overlay_with_header(hval.dup());
                return Ok(out);
            }
            t = t + 1;
        }
        proof {
            self.base.lemma_entries();
            assert forall|k: IdV| #[trigger] self.base@.dom().contains(k) implies k.0
                != "TES3"@ by {
                assert(bkseq.contains(k));
                let x = choose|x: int| 0 <= x < bkseq.len() && bkseq[x] == k;
                assert(bkseq[x].0 != "TES3"@);
            }
            assert(!has_header(self.base@));
        }
        // no header anywhere: the policy decides
        match policy {
            HeaderPolicy::RequireHeader => Err(SaveError::MissingHeader),
            HeaderPolicy::SynthesizeHeader => {
                let hdr = crate::records::create(crate::tags::ERecordType::TES3);
                proof {
                    reveal_strlit("TES3");
                }
                let out = self.overlay_with_header(hdr);
                Ok(out)
            },
        }
    }

    /// The identities of all effective records — every base identity and
    /// every overlay identity, each exactly once.
    pub fn effective_ids(&self) -> (r: Vec<RecordIdentity>)
        requires
            self.wf(),
        ensures
            distinct_seq(r.deep_view()),
            forall|k: IdV| #[trigger]
                r.deep_view().contains(k) <==> self.merged().dom().contains(k),
    {
        let ghost u = self.merged();
        let mut seen: VecMap<RecordIdentity, bool> = VecMap::new();
        proof {
            self.base.lemma_entries();
        }
        let bn = self.base.len();
        let mut i: usize = 0;
        while i < bn
            invariant
                self.wf(),
                bn as nat == self.base.spec_len(),
                i <= bn,
                seen.wf(),
                forall|k: IdV| #[trigger]
                    seen@.dom().contains(k) <==> self.base.key_seq().take(i as int).contains(k),
            decreases bn - i,
        {
            let key = self.base.key_at(i);
            seen.insert(key.dup(), true);
            proof {
                lemma_take_step(self.base.key_seq(), i as int);
            }
            i = i + 1;
        }
        proof {
            self.base.lemma_entries();
            assert(self.base.key_seq().take(bn as int) =~= self.base.key_seq());
            assert forall|k: IdV| #[trigger] seen@.dom().contains(k) <==> self.base@.dom().contains(
                k,
            ) by {
                if seen@.dom().contains(k) {
                    let x = choose|x: int|
                        0 <= x < self.base.key_seq().len() && self.base.key_seq()[x] == k;
                    assert(self.base@.dom().contains(self.base.key_seq()[x]));
                }
            }
            self.overlay.lemma_entries();
        }
        let on = self.overlay.len();
        let mut i: usize = 0;
        while i < on
            invariant
                self.wf(),
                on as nat == self.overlay.spec_len(),
                i <= on,
                seen.wf(),
                forall|k: IdV| #[trigger]
                    seen@.dom().contains(k) <==> (self.base@.dom().contains(k)
                        || self.overlay.key_seq().take(i as int).contains(k)),
            decreases on - i,
        {
            let key = self.overlay.key_at(i);
            seen.insert(key.dup(), true);
            proof {
                lemma_take_step(self.overlay.key_seq(), i as int);
            }
            i = i + 1;
        }
        proof {
            self.overlay.lemma_entries();
            assert(self.overlay.key_seq().take(on as int) =~= self.overlay.key_seq());
            assert forall|k: IdV| #[trigger] seen@.dom().contains(k) <==> u.dom().contains(k) by {
                if self.overlay.key_seq().contains(k) {
                    let x = choose|x: int|
                        0 <= x < self.overlay.key_seq().len() && self.overlay.key_seq()[x] == k;
                    assert(self.overlay@.dom().contains(self.overlay.key_seq()[x]));
                }
            }
            seen.lemma_entries();
        }
        // the accumulator's keys are exactly the effective identities
        let total = seen.len();
        let mut out: Vec<RecordIdentity> = Vec::new();
        let mut t: usize = 0;
        while t < total
            invariant
                total as nat == seen.spec_len(),
                t <= total,
                seen.wf(),
                out.deep_view() == seen.key_seq().take(t as int),
            decreases total - t,
        {
            let ghost pre = out.deep_view();
            out.push(seen.key_at(t).dup());
            proof {
                assert(out.deep_view() =~= pre.push(seen.key_seq()[t as int]));
                assert(out.deep_view() =~= seen.key_seq().take(t + 1));
            }
            t = t + 1;
        }
        proof {
            seen.lemma_entries();
            assert(seen.key_seq().take(total as int) =~= seen.key_seq());
            assert forall|k: IdV| #[trigger] out.deep_view().contains(k) <==> u.dom().contains(
                k,
            ) by {
                if out.deep_view().contains(k) {
                    let x = choose|x: int|
                        0 <= x < seen.key_seq().len() && seen.key_seq()[x] == k;
                    assert(seen@.dom().contains(seen.key_seq()[x]));
                }
                if u.dom().contains(k) {
                    assert(seen@.dom().contains(k));
                    assert(seen.key_seq().contains(k));
                }
            }
        }
        out
    }

    /// Whether the identity has a pending edit.
    pub fn is_dirty(&self, id: &RecordIdentity) -> (r: bool)
        requires
            self.wf(),
        ensures
            r == self.overlay_map().dom().contains(id.deep_view()),
    {
        self.overlay.contains_key(id)
    }

    /// How many records carry pending edits.
    pub closed spec fn spec_dirty_count(&self) -> nat {
        self.overlay.spec_len()
    }

    /// How many records carry pending edits.
    pub fn dirty_count(&self) -> (r: usize)
        requires
            self.wf(),
        ensures
            r as nat == self.spec_dirty_count(),
            (r == 0) ==> self.overlay_map() =~= Map::<IdV, RecordV>::empty(),
    {
        proof {
            self.overlay.lemma_entries();
            if self.overlay.spec_len() == 0 {
                assert forall|k: IdV| !(#[trigger] self.overlay@.dom().contains(k)) by {
                    if self.overlay@.dom().contains(k) {
                        assert(self.overlay.key_seq().contains(k));
                    }
                }
            }
        }
        self.overlay.len()
    }

    /// Removes an identity from both maps, as deleting a record does.
    pub fn delete(&mut self, id: &RecordIdentity)
        requires
            old(self).wf(),
        ensures
            final(self).wf(),
            final(self).sel() == old(self).sel(),
            final(self).base_map() == old(self).base_map().remove(id.deep_view()),
            final(self).overlay_map() == old(self).overlay_map().remove(id.deep_view()),
    {
        self.base.remove(id);
        self.overlay.remove(id);
    }
}

} // verus!
