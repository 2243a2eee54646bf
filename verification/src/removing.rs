//! Safe mutation: deleting a composition and garbage-collecting whatever
//! the deletion left disconnected. Removal is conservative: a concept with
//! any remaining edge is left intact, so deleting one composite never
//! silently cascades into a concept still referenced elsewhere. All edits
//! are proposed into a delta; nothing touches the committed graph until
//! the caller applies the delta.

use vstd::prelude::*;
use vstd::pervasive::VecAdditionalExecFns;
use vstd::string::StringExecFns;
use crate::concepts::{text_of, ConceptV};
use crate::deltas::{apply_label_edits, ConceptEditV, Delta};
use crate::reading::{
    sp_is_disconnected, sp_read, sp_righthand_without_label_empty, ZiaError,
};
use crate::snapshot::{map_get, DesignatedIds, GraphV, Snapshot};

verus! {

/// The label store with every binding to `s` taken out.
pub open spec fn strip_label_value(m: Map<usize, Seq<char>>, s: Seq<char>) -> Map<
    usize,
    Seq<char>,
> {
    Map::new(|id: usize| m.contains_key(id) && m[id] != s, |id: usize| m[id])
}

/// The graph after removing a disconnected concept: its label binding
/// goes, the concept itself goes, and, where it carried a text payload,
/// every binding to that text goes from the label store. A concept with
/// any remaining connection is left intact.
pub open spec fn sp_try_delete_concept(g: GraphV, ids: DesignatedIds, c: usize) -> Result<
    GraphV,
    ZiaError,
> {
    match sp_is_disconnected(g, ids, c) {
        Err(e) => Err(e),
        Ok(false) => Ok(g),
        Ok(true) => match sp_read(g, c) {
            Err(e) => Err(e),
            Ok(cv) => {
                let labels1 = g.labels.remove(c);
                let labels2 = match text_of(cv.specific) {
                    Some(s) => strip_label_value(labels1, s),
                    None => labels1,
                };
                Ok(GraphV { concepts: g.concepts.remove(c), labels: labels2 })
            },
        },
    }
}

/// The graph after removing the definition edge of `c`: the edge itself
/// and the matching entry in each operand's reverse index, read and
/// written in sequence so that a shared or self-referential operand sees
/// the earlier writes.
pub open spec fn sp_remove_definition_edge(g: GraphV, c: usize) -> Result<GraphV, ZiaError> {
    match sp_read(g, c) {
        Err(e) => Err(e),
        Ok(cv) => match cv.definition {
            None => Err(ZiaError::RedundantDefinitionRemoval),
            Some((l, r)) => {
                let g1 = GraphV {
                    concepts: g.concepts.insert(c, ConceptV { definition: None, ..cv }),
                    labels: g.labels,
                };
                match sp_read(g1, l) {
                    Err(e) => Err(e),
                    Ok(lv) => {
                        let g2 = GraphV {
                            concepts: g1.concepts.insert(
                                l,
                                ConceptV { lefthand_of: lv.lefthand_of.remove_value(c), ..lv },
                            ),
                            labels: g.labels,
                        };
                        match sp_read(g2, r) {
                            Err(e) => Err(e),
                            Ok(rv) => Ok(
                                GraphV {
                                    concepts: g2.concepts.insert(
                                        r,
                                        ConceptV {
                                            righthand_of: rv.righthand_of.remove_value(c),
                                            ..rv
                                        },
                                    ),
                                    labels: g.labels,
                                },
                            ),
                        }
                    },
                }
            },
        },
    }
}

/// The graph after cleanly deleting the definition of `c`: the edge and
/// its reverse-index entries go, then the composite and both operands are
/// garbage-collected, in that order, each only if it ended disconnected.
pub open spec fn sp_cleanly_delete_definition(g: GraphV, ids: DesignatedIds, c: usize) -> Result<
    GraphV,
    ZiaError,
> {
    match sp_read(g, c) {
        Err(e) => Err(e),
        Ok(cv) => match cv.definition {
            None => Err(ZiaError::RedundantDefinitionRemoval),
            Some((l, r)) => match sp_remove_definition_edge(g, c) {
                Err(e) => Err(e),
                Ok(g3) => match sp_try_delete_concept(g3, ids, c) {
                    Err(e) => Err(e),
                    Ok(g4) => match sp_try_delete_concept(g4, ids, l) {
                        Err(e) => Err(e),
                        Ok(g5) => sp_try_delete_concept(g5, ids, r),
                    },
                },
            },
        },
    }
}

/// Removing a concept from the committed store outright, with no
/// disconnection check: the caller has already made that check.
pub trait BlindConceptRemover {
    /// The committed concept store.
    spec fn concept_store(&self) -> Map<usize, ConceptV>;

    /// The committed label store.
    spec fn label_store(&self) -> Map<usize, Seq<char>>;

    /// Removes `concept` from the committed store.
    fn blindly_remove_concept(&mut self, concept: usize)
        ensures
            final(self).concept_store() == old(self).concept_store().remove(concept),
            final(self).label_store() == old(self).label_store(),
    ;
}

impl BlindConceptRemover for Snapshot {
    open spec fn concept_store(&self) -> Map<usize, ConceptV> {
        self.base_concepts()
    }

    open spec fn label_store(&self) -> Map<usize, Seq<char>> {
        self.base_labels()
    }

    fn blindly_remove_concept(&mut self, concept: usize) {
        if concept < self.concepts.len() {
            self.concepts.set(concept, None);
        }
        proof {
            assert(self.base_concepts() =~= old(self).base_concepts().remove(concept));
            assert(self.base_label_edits() =~= old(self).base_label_edits());
        }
    }
}

/// Removing a label text from the committed label table outright.
pub trait StringRemover {
    /// The committed label bindings, in table order.
    spec fn label_entries(&self) -> Seq<(usize, Seq<char>)>;

    /// Removes every binding carrying the text `s` from the committed
    /// table.
    fn remove_string(&mut self, s: &str)
        ensures
            final(self).label_entries() == old(self).label_entries().filter(
                |e: (usize, Seq<char>)| e.1 != s@,
            ),
    ;
}

impl StringRemover for Snapshot {
    open spec fn label_entries(&self) -> Seq<(usize, Seq<char>)> {
        self.labels@.map_values(|e: (usize, String)| (e.0, e.1@))
    }

    fn remove_string(&mut self, s: &str) {
        let ghost prior = self.label_entries();
        let sought: String = String::from_str(s);
        let mut kept: Vec<(usize, String)> = Vec::new();
        let mut i: usize = 0;
        proof {
            reveal(Seq::filter);
            assert(prior.take(0).filter(|e: (usize, Seq<char>)| e.1 != s@) =~= kept@.map_values(
                |e: (usize, String)| (e.0, e.1@),
            ));
        }
        while i < self.labels.len()
            invariant
                i <= self.labels.len(),
                sought@ == s@,
                prior == self.label_entries(),
                prior.len() == self.labels.len(),
                prior.take(i as int).filter(|e: (usize, Seq<char>)| e.1 != s@) == kept@.map_values(
                    |e: (usize, String)| (e.0, e.1@),
                ),
            decreases self.labels.len() - i,
        {
            proof {
                reveal(Seq::filter);
                assert(prior.take(i + 1).drop_last() =~= prior.take(i as int));
                assert(prior.take(i + 1).last() == prior[i as int]);
            }
            let (id, text) = &self.labels[i];
            if !text.eq(&sought) {
                let ghost before = kept@;
                kept.push((*id, text.clone()));
                proof {
                    reveal(Seq::filter);
                    assert(kept@.map_values(|e: (usize, String)| (e.0, e.1@)) =~= before.map_values(
                        |e: (usize, String)| (e.0, e.1@),
                    ).push((prior[i as int].0, prior[i as int].1)));
                }
            }
            i = i + 1;
        }
        proof {
            reveal(Seq::filter);
            assert(prior.take(prior.len() as int) =~= prior);
        }
        self.labels = kept;
    }
}

/// Recording the removal of a concept in a delta.
pub trait BlindConceptRemoverDelta {
    /// Records the removal of `concept` in the delta.
    fn blindly_remove_concept_delta(&self, delta: &mut Delta, concept: usize)
        ensures
            final(delta)@.concepts == old(delta)@.concepts.push((concept, ConceptEditV::Remove)),
            final(delta)@.labels == old(delta)@.labels,
    ;
}

impl BlindConceptRemoverDelta for Snapshot {
    fn blindly_remove_concept_delta(&self, delta: &mut Delta, concept: usize) {
        delta.remove_concept(concept);
    }
}

/// Recording the removal of a label text in a delta.
pub trait StringRemoverDelta {
    /// The label store as seen through one uncommitted overlay.
    spec fn label_store_through(&self, d: Delta) -> Map<usize, Seq<char>>;

    /// Records, in the delta, the unbinding of every concept whose label
    /// through the overlay is `s`.
    fn remove_string_delta(&self, delta: &mut Delta, s: &str)
        ensures
            self.label_store_through(*final(delta)) == strip_label_value(
                self.label_store_through(*old(delta)),
                s@,
            ),
            final(delta)@.concepts == old(delta)@.concepts,
    ;
}

impl StringRemoverDelta for Snapshot {
    open spec fn label_store_through(&self, d: Delta) -> Map<usize, Seq<char>> {
        self.graph_with(d).labels
    }

    fn remove_string_delta(&self, delta: &mut Delta, s: &str) {
        let ghost m0 = self.graph_with(*delta).labels;
        let ghost base_len = self.labels@.len();
        let ghost delta0 = *delta;
        let sought: String = String::from_str(s);

        // Every concept that could carry a label sits in the committed
        // table or among the overlay's own label edits.
        let mut cands: Vec<usize> = Vec::new();
        let mut i: usize = 0;
        while i < self.labels.len()
            invariant
                i <= self.labels.len(),
                cands@.len() == i,
                forall|k: int| 0 <= k < i ==> cands@[k] == self.labels@[k].0,
            decreases self.labels.len() - i,
        {
            cands.push(self.labels[i].0);
            i = i + 1;
        }
        let mut j: usize = 0;
        while j < delta.labels.len()
            invariant
                j <= delta.labels.len(),
                *delta == delta0,
                cands@.len() == base_len + j,
                forall|k: int| 0 <= k < base_len ==> cands@[k] == self.labels@[k].0,
                forall|k: int|
                    0 <= k < j ==> cands@[base_len + k] == delta0.labels@[k].0,
            decreases delta.labels.len() - j,
        {
            let id = delta.labels[j].0;
            cands.push(id);
            j = j + 1;
        }

        let ghost cs = cands@;
        let mut n: usize = 0;
        while n < cands.len()
            invariant
                n <= cands.len(),
                cands@ == cs,
                sought@ == s@,
                m0 == self.graph_with(delta0).labels,
                delta@.concepts == delta0@.concepts,
                forall|id: usize|
                    map_get(#[trigger] self.graph_with(*delta).labels, id) == (if (exists|k: int|
                        0 <= k < n && cs[k] == id) && map_get(m0, id) == Some(s@) {
                        None::<Seq<char>>
                    } else {
                        map_get(m0, id)
                    }),
            decreases cands.len() - n,
        {
            let id = cands[n];
            let current = self.label_with(delta, id);
            let hit = match &current {
                Some(t) => t.eq(&sought),
                None => false,
            };
            let ghost before = *delta;
            if hit {
                delta.unset_label(id);
                proof {
                    assert(delta@.labels.drop_last() =~= before@.labels);
                    assert(self.graph_with(*delta).labels =~= self.graph_with(
                        before,
                    ).labels.remove(id));
                }
            }
            proof {
                assert(cs[n as int] == id);
                assert forall|id2: usize|
                    map_get(#[trigger] self.graph_with(*delta).labels, id2) == (if (exists|k: int|
                        0 <= k < n + 1 && cs[k] == id2) && map_get(m0, id2) == Some(s@) {
                        None::<Seq<char>>
                    } else {
                        map_get(m0, id2)
                    }) by {
                    if id2 == id {
                        if map_get(m0, id2) == Some(s@) {
                            assert((exists|k: int| 0 <= k < n + 1 && cs[k] == id2));
                        }
                    } else {
                        assert((exists|k: int| 0 <= k < n + 1 && cs[k] == id2) == (exists|k: int|
                            0 <= k < n && cs[k] == id2)) by {
                            if exists|k: int| 0 <= k < n + 1 && cs[k] == id2 {
                                let k = choose|k: int| 0 <= k < n + 1 && cs[k] == id2;
                                assert(k != n);
                                assert(0 <= k < n && cs[k] == id2);
                            }
                        }
                    }
                }
            }
            n = n + 1;
        }
        proof {
            self.lemma_label_with_domain(delta0);
            assert forall|id: usize|
                map_get(#[trigger] self.graph_with(*delta).labels, id) == map_get(
                    strip_label_value(m0, s@),
                    id,
                ) by {
                if map_get(m0, id) == Some(s@) {
                    assert(apply_label_edits(self.base_labels(), delta0@.labels).contains_key(id));
                    if exists|k: int| 0 <= k < self.labels@.len() && self.labels@[k].0 == id {
                        let k = choose|k: int|
                            0 <= k < self.labels@.len() && self.labels@[k].0 == id;
                        assert(cs[k] == id);
                    } else {
                        let k = choose|k: int|
                            0 <= k < delta0.labels@.len() && delta0.labels@[k].0 == id;
                        assert(cs[base_len + k] == id);
                    }
                }
            }
            let mf = self.graph_with(*delta).labels;
            let target = strip_label_value(m0, s@);
            assert forall|id: usize| #[trigger] mf.contains_key(id) implies target.contains_key(id)
                && mf[id] == target[id] by {
                assert(map_get(mf, id) == map_get(target, id));
            }
            assert forall|id: usize| #[trigger] target.contains_key(id) implies mf.contains_key(
                id,
            ) by {
                assert(map_get(mf, id) == map_get(target, id));
            }
            assert(mf =~= target);
        }
    }
}

impl Snapshot {
    /// Whether every composition using a member of `rh` as right operand
    /// composes the label relation, read through one uncommitted overlay.
    fn righthand_label_only_with(
        &self,
        delta: &Delta,
        ids: &DesignatedIds,
        rh: &Vec<usize>,
    ) -> (r: Result<bool, ZiaError>)
        ensures
            r == sp_righthand_without_label_empty(self.graph_with(*delta), *ids, rh@),
    {
        let ghost g = self.graph_with(*delta);
        let ghost rhs = rh@;
        let mut i: usize = 0;
        proof {
            assert(rhs.skip(0) =~= rhs);
        }
        while i < rh.len()
            invariant
                i <= rh.len(),
                rhs == rh@,
                rhs.len() == rh.len(),
                g == self.graph_with(*delta),
                sp_righthand_without_label_empty(g, *ids, rhs) == sp_righthand_without_label_empty(
                    g,
                    *ids,
                    rhs.skip(i as int),
                ),
            decreases rh.len() - i,
        {
            proof {
                assert(rhs.skip(i as int).first() == rhs[i as int]);
                assert(rhs.skip(i as int).drop_first() =~= rhs.skip(i + 1));
            }
            match self.read_with(delta, rh[i]) {
                None => {
                    return Err(ZiaError::UnknownConcept);
                },
                Some(m) => match m.get_definition() {
                    None => (),
                    Some((l, _)) => {
                        if l != ids.label_id {
                            return Ok(false);
                        }
                    },
                },
            }
            i = i + 1;
        }
        Ok(true)
    }

    /// Whether `concept` is disconnected, read through one uncommitted
    /// overlay.
    fn is_disconnected_with(&self, delta: &Delta, ids: &DesignatedIds, concept: usize) -> (r:
        Result<bool, ZiaError>)
        ensures
            r == sp_is_disconnected(self.graph_with(*delta), *ids, concept),
    {
        let c = match self.read_with(delta, concept) {
            Some(c) => c,
            None => {
                return Err(ZiaError::UnknownConcept);
            },
        };
        if c.get_reduction().is_some() {
            return Ok(false);
        }
        if c.get_definition().is_some() {
            return Ok(false);
        }
        if c.get_lefthand_of().len() != 0 {
            return Ok(false);
        }
        match self.righthand_label_only_with(delta, ids, c.get_righthand_of()) {
            Err(e) => Err(e),
            Ok(false) => Ok(false),
            Ok(true) => Ok(c.find_what_reduces_to_it().len() == 0),
        }
    }

    /// Removes the definition edge of `concept` and the matching entries
    /// of both operands' reverse indices, then garbage-collects the
    /// composite and the operands; edits go into `delta` as they are
    /// decided.
    fn delete_definition_edits(&self, delta: &mut Delta, ids: &DesignatedIds, concept: usize) -> (
        r: Result<(), ZiaError>)
        ensures
            match r {
                Ok(()) => sp_cleanly_delete_definition(
                    self.graph_with(*old(delta)),
                    *ids,
                    concept,
                ) == Ok::<GraphV, ZiaError>(self.graph_with(*final(delta))),
                Err(e) => sp_cleanly_delete_definition(self.graph_with(*old(delta)), *ids, concept)
                    == Err::<GraphV, ZiaError>(e),
            },
    {
        let ghost g0 = self.graph_with(*old(delta));
        let cv = match self.read_with(delta, concept) {
            Some(c) => c,
            None => {
                return Err(ZiaError::UnknownConcept);
            },
        };
        let (l, r) = match cv.get_definition() {
            Some(p) => p,
            None => {
                return Err(ZiaError::RedundantDefinitionRemoval);
            },
        };
        let c_edited = cv.with_definition_removed();
        let ghost g1 = GraphV {
            concepts: g0.concepts.insert(concept, c_edited@),
            labels: g0.labels,
        };
        let lv = if l == concept {
            c_edited.clone()
        } else {
            match self.read_with(delta, l) {
                Some(c) => c,
                None => {
                    return Err(ZiaError::UnknownConcept);
                },
            }
        };
        proof {
            assert(sp_read(g1, l) == Ok::<ConceptV, ZiaError>(lv@));
        }
        let lv2 = lv.with_lefthand_of_pruned(concept);
        let ghost g2 = GraphV { concepts: g1.concepts.insert(l, lv2@), labels: g0.labels };
        let rv = if r == l {
            lv2.clone()
        } else if r == concept {
            c_edited.clone()
        } else {
            match self.read_with(delta, r) {
                Some(c) => c,
                None => {
                    return Err(ZiaError::UnknownConcept);
                },
            }
        };
        proof {
            assert(sp_read(g2, r) == Ok::<ConceptV, ZiaError>(rv@));
        }
        let rv2 = rv.with_righthand_of_pruned(concept);
        let ghost g3 = GraphV { concepts: g2.concepts.insert(r, rv2@), labels: g0.labels };
        proof {
            assert(sp_remove_definition_edge(g0, concept) == Ok::<GraphV, ZiaError>(g3));
        }
        let ghost d0 = *delta;
        delta.write_concept(concept, c_edited);
        proof {
            assert(delta@.concepts.drop_last() =~= d0@.concepts);
            assert(self.graph_with(*delta).concepts =~= g1.concepts);
        }
        let ghost d1 = *delta;
        delta.write_concept(l, lv2);
        proof {
            assert(delta@.concepts.drop_last() =~= d1@.concepts);
            assert(self.graph_with(*delta).concepts =~= g2.concepts);
        }
        let ghost d2 = *delta;
        delta.write_concept(r, rv2);
        proof {
            assert(delta@.concepts.drop_last() =~= d2@.concepts);
            assert(self.graph_with(*delta).concepts =~= g3.concepts);
            assert(self.graph_with(*delta).labels =~= g3.labels);
            assert(self.graph_with(*delta) =~= g3);
        }
        match self.try_delete_concept(delta, ids, concept) {
            Err(e) => {
                return Err(e);
            },
            Ok(()) => (),
        }
        match self.try_delete_concept(delta, ids, l) {
            Err(e) => {
                return Err(e);
            },
            Ok(()) => (),
        }
        match self.try_delete_concept(delta, ids, r) {
            Err(e) => {
                return Err(e);
            },
            Ok(()) => (),
        }
        Ok(())
    }
}

/// Deleting a composition safely: the only mutation entry point of the
/// engine. Every edit is proposed into a delta and the committed graph is
/// untouched until the caller applies it.
pub trait DefinitionDeleter {
    /// The graph as seen through one uncommitted overlay.
    spec fn graph_through(&self, d: Delta) -> GraphV;

    /// Removes the definition of `concept` together with both
    /// reverse-index entries, then garbage-collects the composite and the
    /// two operands, each only if it ended disconnected. Fails with
    /// `RedundantDefinitionRemoval` where `concept` has no definition, and
    /// leaves the delta untouched on any fault.
    fn cleanly_delete_definition(&self, delta: &mut Delta, ids: &DesignatedIds, concept: usize) -> (
        r: Result<(), ZiaError>)
        ensures
            match r {
                Ok(()) => sp_cleanly_delete_definition(
                    self.graph_through(*old(delta)),
                    *ids,
                    concept,
                ) == Ok::<GraphV, ZiaError>(self.graph_through(*final(delta))),
                Err(e) => sp_cleanly_delete_definition(
                    self.graph_through(*old(delta)),
                    *ids,
                    concept,
                ) == Err::<GraphV, ZiaError>(e) && *final(delta) == *old(delta),
            },
    ;

    /// Garbage-collects `concept` alone: a no-op unless it is
    /// disconnected; where it is, its label binding goes, the concept
    /// goes, and a text payload leaves the label store with it.
    fn try_delete_concept(&self, delta: &mut Delta, ids: &DesignatedIds, concept: usize) -> (r:
        Result<(), ZiaError>)
        ensures
            match r {
                Ok(()) => sp_try_delete_concept(self.graph_through(*old(delta)), *ids, concept)
                    == Ok::<GraphV, ZiaError>(self.graph_through(*final(delta))),
                Err(e) => sp_try_delete_concept(self.graph_through(*old(delta)), *ids, concept)
                    == Err::<GraphV, ZiaError>(e) && *final(delta) == *old(delta),
            },
    ;
}

impl DefinitionDeleter for Snapshot {
    open spec fn graph_through(&self, d: Delta) -> GraphV {
        self.graph_with(d)
    }

    fn cleanly_delete_definition(&self, delta: &mut Delta, ids: &DesignatedIds, concept: usize) -> (
        r: Result<(), ZiaError>) {
        let mut scratch = delta.clone();
        proof {
            assert(self.graph_with(scratch) == self.graph_with(*delta));
        }
        match self.delete_definition_edits(&mut scratch, ids, concept) {
            Ok(()) => {
                *delta = scratch;
                Ok(())
            },
            Err(e) => Err(e),
        }
    }

    fn try_delete_concept(&self, delta: &mut Delta, ids: &DesignatedIds, concept: usize) -> (r:
        Result<(), ZiaError>) {
        let ghost g0 = self.graph_with(*old(delta));
        let disconnected = match self.is_disconnected_with(delta, ids, concept) {
            Err(e) => {
                return Err(e);
            },
            Ok(b) => b,
        };
        if !disconnected {
            return Ok(());
        }
        let c = match self.read_with(delta, concept) {
            Some(c) => c,
            None => {
                return Err(ZiaError::UnknownConcept);
            },
        };
        let ghost before_unset = *delta;
        delta.unset_label(concept);
        proof {
            assert(delta@.labels.drop_last() =~= before_unset@.labels);
            assert(self.graph_with(*delta).labels =~= self.graph_with(before_unset).labels.remove(
                concept,
            ));
            assert(self.graph_with(*delta).concepts =~= self.graph_with(before_unset).concepts);
        }
        let ghost before_rm = *delta;
        delta.remove_concept(concept);
        proof {
            assert(delta@.concepts.drop_last() =~= before_rm@.concepts);
            assert(self.graph_with(*delta).concepts =~= self.graph_with(before_rm).concepts.remove(
                concept,
            ));
            assert(self.graph_with(*delta).labels =~= self.graph_with(before_rm).labels);
        }
        match c.get_string() {
            Some(s) => {
                self.remove_string_delta(delta, s.as_str());
            },
            None => (),
        }
        proof {
            assert(self.graph_with(*delta).concepts =~= g0.concepts.remove(concept));
            match sp_try_delete_concept(g0, *ids, concept) {
                Ok(target) => {
                    assert(self.graph_with(*delta).labels =~= target.labels);
                    assert(self.graph_with(*delta) =~= target);
                },
                Err(_) => {},
            }
        }
        Ok(())
    }
}

} // verus!
