//! The delta: an overlay of pending graph edits not yet committed to the
//! base snapshot. A delta holds concept writes and removals and label edits,
//! most recent last. Deltas compose by concatenation and are read as an
//! ordered chain applied on top of the snapshot — later edits override
//! earlier ones for the same concept or label. The overlay lets the
//! rewriting engine explore hypothetical graph states without mutating the
//! committed graph until the caller chooses to apply the result.

use vstd::prelude::*;
use crate::concepts::{Concept, ConceptV, view_opt_string};

verus! {

/// One pending edit to a concept: a full overwrite (also used to introduce a
/// new concept) or a removal.
#[derive(Debug)]
pub enum ConceptEdit {
    Write(Concept),
    Remove,
}

/// Mathematical model of a `ConceptEdit`.
pub enum ConceptEditV {
    Write(ConceptV),
    Remove,
}

impl View for ConceptEdit {
    type V = ConceptEditV;

    open spec fn view(&self) -> ConceptEditV {
        match self {
            ConceptEdit::Write(c) => ConceptEditV::Write(c@),
            ConceptEdit::Remove => ConceptEditV::Remove,
        }
    }
}

/// An overlay of pending edits, most recent last.
#[derive(Debug)]
pub struct Delta {
    pub concepts: Vec<(usize, ConceptEdit)>,
    pub labels: Vec<(usize, Option<String>)>,
}

/// Mathematical model of a `Delta`.
pub struct DeltaV {
    pub concepts: Seq<(usize, ConceptEditV)>,
    pub labels: Seq<(usize, Option<Seq<char>>)>,
}

impl View for Delta {
    type V = DeltaV;

    open spec fn view(&self) -> DeltaV {
        DeltaV {
            concepts: self.concepts@.map_values(|e: (usize, ConceptEdit)| (e.0, e.1@)),
            labels: self.labels@.map_values(|e: (usize, Option<String>)| (e.0, view_opt_string(e.1))),
        }
    }
}

/// The views of a chain of deltas.
pub open spec fn view_deltas(ds: Seq<Delta>) -> Seq<DeltaV> {
    ds.map_values(|d: Delta| d@)
}

/// The concept store after one run of edits, most recent last.
pub open spec fn apply_concept_edits(
    m: Map<usize, ConceptV>,
    edits: Seq<(usize, ConceptEditV)>,
) -> Map<usize, ConceptV>
    decreases edits.len(),
{
    if edits.len() == 0 {
        m
    } else {
        let rest = apply_concept_edits(m, edits.drop_last());
        match edits.last().1 {
            ConceptEditV::Write(c) => rest.insert(edits.last().0, c),
            ConceptEditV::Remove => rest.remove(edits.last().0),
        }
    }
}

/// The label store after one run of edits, most recent last.
pub open spec fn apply_label_edits(
    m: Map<usize, Seq<char>>,
    edits: Seq<(usize, Option<Seq<char>>)>,
) -> Map<usize, Seq<char>>
    decreases edits.len(),
{
    if edits.len() == 0 {
        m
    } else {
        let rest = apply_label_edits(m, edits.drop_last());
        match edits.last().1 {
            Some(s) => rest.insert(edits.last().0, s),
            None => rest.remove(edits.last().0),
        }
    }
}

/// The concept store after a whole chain of deltas.
pub open spec fn concepts_after(base: Map<usize, ConceptV>, ds: Seq<DeltaV>) -> Map<
    usize,
    ConceptV,
>
    decreases ds.len(),
{
    if ds.len() == 0 {
        base
    } else {
        apply_concept_edits(concepts_after(base, ds.drop_last()), ds.last().concepts)
    }
}

/// The label store after a whole chain of deltas.
pub open spec fn labels_after(base: Map<usize, Seq<char>>, ds: Seq<DeltaV>) -> Map<
    usize,
    Seq<char>,
>
    decreases ds.len(),
{
    if ds.len() == 0 {
        base
    } else {
        apply_label_edits(labels_after(base, ds.drop_last()), ds.last().labels)
    }
}

/// The most recent concept edit for `id`, if any.
pub open spec fn find_concept_edit(edits: Seq<(usize, ConceptEditV)>, id: usize) -> Option<
    ConceptEditV,
>
    decreases edits.len(),
{
    if edits.len() == 0 {
        None
    } else if edits.last().0 == id {
        Some(edits.last().1)
    } else {
        find_concept_edit(edits.drop_last(), id)
    }
}

/// The most recent label edit for `id`, if any.
pub open spec fn find_label_edit(edits: Seq<(usize, Option<Seq<char>>)>, id: usize) -> Option<
    Option<Seq<char>>,
>
    decreases edits.len(),
{
    if edits.len() == 0 {
        None
    } else if edits.last().0 == id {
        Some(edits.last().1)
    } else {
        find_label_edit(edits.drop_last(), id)
    }
}

/// Applying a run of concept edits changes exactly the concepts whose id has
/// an edit, and the most recent edit for an id wins.
pub proof fn lemma_apply_concept_edits_lookup(
    m: Map<usize, ConceptV>,
    edits: Seq<(usize, ConceptEditV)>,
    id: usize,
)
    ensures
        match find_concept_edit(edits, id) {
            Some(ConceptEditV::Write(c)) => apply_concept_edits(m, edits).contains_key(id)
                && apply_concept_edits(m, edits)[id] == c,
            Some(ConceptEditV::Remove) => !apply_concept_edits(m, edits).contains_key(id),
            None => apply_concept_edits(m, edits).contains_key(id) == m.contains_key(id) && (
            m.contains_key(id) ==> apply_concept_edits(m, edits)[id] == m[id]),
        },
    decreases edits.len(),
{
    if edits.len() > 0 {
        lemma_apply_concept_edits_lookup(m, edits.drop_last(), id);
    }
}

/// Applying a run of label edits changes exactly the labels whose id has an
/// edit, and the most recent edit for an id wins.
pub proof fn lemma_apply_label_edits_lookup(
    m: Map<usize, Seq<char>>,
    edits: Seq<(usize, Option<Seq<char>>)>,
    id: usize,
)
    ensures
        match find_label_edit(edits, id) {
            Some(Some(s)) => apply_label_edits(m, edits).contains_key(id) && apply_label_edits(
                m,
                edits,
            )[id] == s,
            Some(None) => !apply_label_edits(m, edits).contains_key(id),
            None => apply_label_edits(m, edits).contains_key(id) == m.contains_key(id) && (
            m.contains_key(id) ==> apply_label_edits(m, edits)[id] == m[id]),
        },
    decreases edits.len(),
{
    if edits.len() > 0 {
        lemma_apply_label_edits_lookup(m, edits.drop_last(), id);
    }
}

/// Applying a concatenation of edit runs is applying the runs in order.
pub proof fn lemma_apply_concept_edits_concat(
    m: Map<usize, ConceptV>,
    e1: Seq<(usize, ConceptEditV)>,
    e2: Seq<(usize, ConceptEditV)>,
)
    ensures
        apply_concept_edits(m, e1 + e2) == apply_concept_edits(apply_concept_edits(m, e1), e2),
    decreases e2.len(),
{
    if e2.len() == 0 {
        assert(e1 + e2 =~= e1);
    } else {
        lemma_apply_concept_edits_concat(m, e1, e2.drop_last());
        assert((e1 + e2).drop_last() =~= e1 + e2.drop_last());
        assert((e1 + e2).last() == e2.last());
    }
}

/// Applying a concatenation of label edit runs is applying the runs in order.
pub proof fn lemma_apply_label_edits_concat(
    m: Map<usize, Seq<char>>,
    e1: Seq<(usize, Option<Seq<char>>)>,
    e2: Seq<(usize, Option<Seq<char>>)>,
)
    ensures
        apply_label_edits(m, e1 + e2) == apply_label_edits(apply_label_edits(m, e1), e2),
    decreases e2.len(),
{
    if e2.len() == 0 {
        assert(e1 + e2 =~= e1);
    } else {
        lemma_apply_label_edits_concat(m, e1, e2.drop_last());
        assert((e1 + e2).drop_last() =~= e1 + e2.drop_last());
        assert((e1 + e2).last() == e2.last());
    }
}

impl Clone for ConceptEdit {
    /// An identical edit.
    fn clone(&self) -> (r: ConceptEdit)
        ensures
            r@ == self@,
    {
        match self {
            ConceptEdit::Write(c) => ConceptEdit::Write(c.clone()),
            ConceptEdit::Remove => ConceptEdit::Remove,
        }
    }
}

impl Clone for Delta {
    /// An identical overlay.
    fn clone(&self) -> (r: Delta)
        ensures
            r@ == self@,
    {
        let mut concepts: Vec<(usize, ConceptEdit)> = Vec::new();
        let mut i: usize = 0;
        while i < self.concepts.len()
            invariant
                i <= self.concepts.len(),
                concepts@.len() == i,
                forall|k: int|
                    0 <= k < i ==> #[trigger] concepts@[k].0 == self.concepts@[k].0
                        && concepts@[k].1@ == self.concepts@[k].1@,
            decreases self.concepts.len() - i,
        {
            let (id, e) = &self.concepts[i];
            concepts.push((*id, e.clone()));
            i = i + 1;
        }
        let mut labels: Vec<(usize, Option<String>)> = Vec::new();
        let mut j: usize = 0;
        while j < self.labels.len()
            invariant
                j <= self.labels.len(),
                labels@.len() == j,
                forall|k: int|
                    0 <= k < j ==> #[trigger] labels@[k].0 == self.labels@[k].0
                        && view_opt_string(labels@[k].1) == view_opt_string(self.labels@[k].1),
            decreases self.labels.len() - j,
        {
            let (id, e) = &self.labels[j];
            let copy = match e {
                Some(s) => Some(s.clone()),
                None => None,
            };
            labels.push((*id, copy));
            j = j + 1;
        }
        let r = Delta { concepts, labels };
        proof {
            assert(r@.concepts =~= self@.concepts);
            assert(r@.labels =~= self@.labels);
        }
        r
    }
}

impl Default for Delta {
    /// An empty overlay.
    fn default() -> (d: Delta)
        ensures
            d@.concepts == Seq::<(usize, ConceptEditV)>::empty(),
            d@.labels == Seq::<(usize, Option<Seq<char>>)>::empty(),
    {
        Delta::new()
    }
}

impl Delta {
    /// An empty overlay.
    pub fn new() -> (d: Delta)
        ensures
            d@.concepts == Seq::<(usize, ConceptEditV)>::empty(),
            d@.labels == Seq::<(usize, Option<Seq<char>>)>::empty(),
    {
        let d = Delta { concepts: Vec::new(), labels: Vec::new() };
        proof {
            assert(d@.concepts =~= Seq::<(usize, ConceptEditV)>::empty());
            assert(d@.labels =~= Seq::<(usize, Option<Seq<char>>)>::empty());
        }
        d
    }

    /// Records a full overwrite of the concept `id`.
    pub fn write_concept(&mut self, id: usize, concept: Concept)
        ensures
            final(self)@.concepts == old(self)@.concepts.push((id, ConceptEditV::Write(concept@))),
            final(self)@.labels == old(self)@.labels,
    {
        let ghost prior = self@.concepts;
        self.concepts.push((id, ConceptEdit::Write(concept)));
        proof {
            assert(self@.concepts =~= prior.push((id, self@.concepts.last().1)));
        }
    }

    /// Records the removal of the concept `id`.
    pub fn remove_concept(&mut self, id: usize)
        ensures
            final(self)@.concepts == old(self)@.concepts.push((id, ConceptEditV::Remove)),
            final(self)@.labels == old(self)@.labels,
    {
        let ghost prior = self@.concepts;
        self.concepts.push((id, ConceptEdit::Remove));
        proof {
            assert(self@.concepts =~= prior.push((id, ConceptEditV::Remove)));
        }
    }

    /// Records a new label for the concept `id`.
    pub fn set_label(&mut self, id: usize, label: String)
        ensures
            final(self)@.labels == old(self)@.labels.push((id, Some(label@))),
            final(self)@.concepts == old(self)@.concepts,
    {
        let ghost prior = self@.labels;
        self.labels.push((id, Some(label)));
        proof {
            assert(self@.labels =~= prior.push((id, self@.labels.last().1)));
        }
    }

    /// Records the removal of any label for the concept `id`.
    pub fn unset_label(&mut self, id: usize)
        ensures
            final(self)@.labels == old(self)@.labels.push((id, None)),
            final(self)@.concepts == old(self)@.concepts,
    {
        let ghost prior = self@.labels;
        self.labels.push((id, None));
        proof {
            assert(self@.labels =~= prior.push((id, None)));
        }
    }

    /// Composes two overlays: the edits of `other` come after the edits of
    /// `self`, so reading through the composition is reading through `self`
    /// then `other`.
    pub fn combine(self, other: Delta) -> (d: Delta)
        ensures
            d@.concepts == self@.concepts + other@.concepts,
            d@.labels == self@.labels + other@.labels,
    {
        let mut first = self;
        let mut second = other;
        let ghost sc = first@.concepts;
        let ghost sl = first@.labels;
        let ghost oc = second@.concepts;
        let ghost ol = second@.labels;
        first.concepts.append(&mut second.concepts);
        first.labels.append(&mut second.labels);
        proof {
            assert(first@.concepts =~= sc + oc);
            assert(first@.labels =~= sl + ol);
        }
        first
    }

    /// The most recent concept edit this overlay holds for `id`, if any.
    pub fn concept_edit_for(&self, id: usize) -> (r: Option<&ConceptEdit>)
        ensures
            match r {
                Some(e) => find_concept_edit(self@.concepts, id) == Some(e@),
                None => find_concept_edit(self@.concepts, id) is None,
            },
    {
        let ghost edits = self@.concepts;
        let mut i = self.concepts.len();
        proof {
            assert(edits.take(i as int) =~= edits);
        }
        while i > 0
            invariant
                i <= self.concepts.len(),
                edits == self@.concepts,
                edits.len() == self.concepts.len(),
                find_concept_edit(edits, id) == find_concept_edit(edits.take(i as int), id),
            decreases i,
        {
            i = i - 1;
            if self.concepts[i].0 == id {
                proof {
                    assert(edits.take(i + 1).last() == edits[i as int]);
                }
                return Some(&self.concepts[i].1);
            }
            proof {
                assert(edits.take(i + 1).drop_last() =~= edits.take(i as int));
            }
        }
        proof {
            assert(edits.take(0) =~= Seq::<(usize, ConceptEditV)>::empty());
        }
        None
    }

    /// The most recent label edit this overlay holds for `id`, if any.
    pub fn label_edit_for(&self, id: usize) -> (r: Option<&Option<String>>)
        ensures
            match r {
                Some(e) => find_label_edit(self@.labels, id) == Some(view_opt_string(*e)),
                None => find_label_edit(self@.labels, id) is None,
            },
    {
        let ghost edits = self@.labels;
        let mut i = self.labels.len();
        proof {
            assert(edits.take(i as int) =~= edits);
        }
        while i > 0
            invariant
                i <= self.labels.len(),
                edits == self@.labels,
                edits.len() == self.labels.len(),
                find_label_edit(edits, id) == find_label_edit(edits.take(i as int), id),
            decreases i,
        {
            i = i - 1;
            if self.labels[i].0 == id {
                proof {
                    assert(edits.take(i + 1).last() == edits[i as int]);
                }
                return Some(&self.labels[i].1);
            }
            proof {
                assert(edits.take(i + 1).drop_last() =~= edits.take(i as int));
            }
        }
        proof {
            assert(edits.take(0) =~= Seq::<(usize, Option<Seq<char>>)>::empty());
        }
        None
    }
}

} // verus!
