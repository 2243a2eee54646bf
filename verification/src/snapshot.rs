//! The committed graph and the reader capability over it. A snapshot holds
//! the committed concepts, indexed by id, and the committed label bindings.
//! Every read goes through a chain of deltas: the engine explores
//! hypothetical graph states by reading the snapshot through overlays that
//! are only later committed or discarded by the caller.

use vstd::prelude::*;
use vstd::string::StringExecFns;
use crate::concepts::{Concept, ConceptV};
use crate::deltas::{
    concepts_after, labels_after, apply_label_edits, find_label_edit,
    lemma_apply_concept_edits_lookup, lemma_apply_label_edits_lookup, view_deltas, Delta,
};

verus! {

/// The designated relation concepts that the engine's rules refer to,
/// threaded explicitly through every search session.
#[derive(Clone, Copy)]
pub struct DesignatedIds {
    pub label_id: usize,
    pub true_id: usize,
    pub false_id: usize,
    pub reduction_id: usize,
    pub assoc_id: usize,
    pub left_id: usize,
    pub right_id: usize,
    pub precedence_id: usize,
    pub greater_than_id: usize,
    pub exists_such_that_id: usize,
    pub implication_id: usize,
}

/// The whole readable state of the graph: concepts and label bindings, as
/// seen through a chain of deltas.
#[verifier::ext_equal]
pub struct GraphV {
    pub concepts: Map<usize, ConceptV>,
    pub labels: Map<usize, Seq<char>>,
}

/// Lookup in a map as an option.
pub open spec fn map_get<V>(m: Map<usize, V>, id: usize) -> Option<V> {
    if m.contains_key(id) {
        Some(m[id])
    } else {
        None
    }
}

/// View of an optional concept.
pub open spec fn view_opt_concept(o: Option<Concept>) -> Option<ConceptV> {
    match o {
        Some(c) => Some(c@),
        None => None,
    }
}

/// The committed graph.
pub struct Snapshot {
    /// The committed concepts; the concept with id `i` sits at index `i`.
    pub concepts: Vec<Option<Concept>>,
    /// The committed label bindings, a concept id and its label text each.
    pub labels: Vec<(usize, String)>,
}

/// Read access to concepts through a chain of deltas.
pub trait ConceptReader {
    /// The concept store this reader exposes under the given chain.
    spec fn concepts_v(&self, ds: Seq<Delta>) -> Map<usize, ConceptV>;

    /// The label store this reader exposes under the given chain.
    spec fn labels_v(&self, ds: Seq<Delta>) -> Map<usize, Seq<char>>;

    /// The concept `id` as seen through the chain, if present.
    fn read_concept(&self, deltas: &Vec<Delta>, id: usize) -> (r: Option<Concept>)
        ensures
            view_opt_concept(r) == map_get(self.concepts_v(deltas@), id),
    ;
}

impl Snapshot {
    /// An empty committed graph.
    pub fn new() -> (s: Snapshot)
        ensures
            s.base_concepts() =~= Map::<usize, ConceptV>::empty(),
            s.base_labels() =~= Map::<usize, Seq<char>>::empty(),
    {
        let s = Snapshot { concepts: Vec::new(), labels: Vec::new() };
        proof {
            assert(s.base_label_edits() =~= Seq::<(usize, Option<Seq<char>>)>::empty());
        }
        s
    }

    /// The committed concept store.
    pub open spec fn base_concepts(&self) -> Map<usize, ConceptV> {
        Map::new(
            |id: usize| id < self.concepts@.len() && self.concepts@[id as int] is Some,
            |id: usize| self.concepts@[id as int]->Some_0@,
        )
    }

    /// The committed label bindings as label edits, most recent last.
    pub open spec fn base_label_edits(&self) -> Seq<(usize, Option<Seq<char>>)> {
        self.labels@.map_values(|e: (usize, String)| (e.0, Some(e.1@)))
    }

    /// The committed label store.
    pub open spec fn base_labels(&self) -> Map<usize, Seq<char>> {
        apply_label_edits(Map::empty(), self.base_label_edits())
    }

    /// The graph as seen through a chain of deltas.
    pub open spec fn graph(&self, ds: Seq<Delta>) -> GraphV {
        GraphV {
            concepts: concepts_after(self.base_concepts(), view_deltas(ds)),
            labels: labels_after(self.base_labels(), view_deltas(ds)),
        }
    }

    /// The graph as seen through one uncommitted overlay.
    pub open spec fn graph_with(&self, d: Delta) -> GraphV {
        GraphV {
            concepts: crate::deltas::apply_concept_edits(self.base_concepts(), d@.concepts),
            labels: apply_label_edits(self.base_labels(), d@.labels),
        }
    }

    /// Reading through a chain of one delta is reading through that
    /// overlay alone.
    pub proof fn lemma_graph_single_overlay(&self, d: Delta)
        ensures
            self.graph(seq![d]) == self.graph_with(d),
    {
        let vds = view_deltas(seq![d]);
        assert(vds.len() == 1);
        assert(vds.last() == d@);
        assert(vds.drop_last() =~= Seq::<crate::deltas::DeltaV>::empty());
        assert(concepts_after(self.base_concepts(), Seq::<crate::deltas::DeltaV>::empty())
            == self.base_concepts());
        assert(labels_after(self.base_labels(), Seq::<crate::deltas::DeltaV>::empty())
            == self.base_labels());
        assert(self.graph(seq![d]).concepts == self.graph_with(d).concepts);
        assert(self.graph(seq![d]).labels == self.graph_with(d).labels);
    }

    /// The concept `id` as seen through one uncommitted overlay.
    pub fn read_with(&self, delta: &Delta, id: usize) -> (r: Option<Concept>)
        ensures
            view_opt_concept(r) == map_get(self.graph_with(*delta).concepts, id),
    {
        proof {
            lemma_apply_concept_edits_lookup(self.base_concepts(), delta@.concepts, id);
        }
        match delta.concept_edit_for(id) {
            Some(e) => match e {
                crate::deltas::ConceptEdit::Write(c) => Some(c.clone()),
                crate::deltas::ConceptEdit::Remove => None,
            },
            None => self.base_concept(id),
        }
    }

    /// The label of `id` as seen through one uncommitted overlay.
    pub fn label_with(&self, delta: &Delta, id: usize) -> (r: Option<String>)
        ensures
            crate::concepts::view_opt_string(r) == map_get(self.graph_with(*delta).labels, id),
    {
        proof {
            lemma_apply_label_edits_lookup(self.base_labels(), delta@.labels, id);
        }
        match delta.label_edit_for(id) {
            Some(e) => match e {
                Some(s) => Some(s.clone()),
                None => None,
            },
            None => self.base_label(id),
        }
    }

    /// Every label visible through one overlay is either committed or
    /// mentioned by the overlay.
    pub(crate) proof fn lemma_label_with_domain(&self, d: Delta)
        ensures
            forall|id: usize|
                #[trigger] apply_label_edits(self.base_labels(), d@.labels).contains_key(id) ==> (
                exists|k: int| 0 <= k < self.labels@.len() && self.labels@[k].0 == id) || (exists|
                    k: int,
                |
                    0 <= k < d.labels@.len() && d.labels@[k].0 == id),
    {
        assert forall|id: usize|
            #[trigger] apply_label_edits(self.base_labels(), d@.labels).contains_key(id) implies (
        exists|k: int| 0 <= k < self.labels@.len() && self.labels@[k].0 == id) || (exists|k: int|
            0 <= k < d.labels@.len() && d.labels@[k].0 == id) by {
            lemma_apply_label_edits_lookup(self.base_labels(), d@.labels, id);
            match find_label_edit(d@.labels, id) {
                Some(_) => {
                    lemma_find_label_edit_mentions(d@.labels, id);
                    let k = choose|k: int| 0 <= k < d@.labels.len() && d@.labels[k].0 == id;
                    assert(d.labels@[k].0 == id);
                },
                None => {
                    self.lemma_base_label_domain(self.base_label_edits().len() as int, id);
                    assert(self.base_label_edits().take(self.base_label_edits().len() as int)
                        =~= self.base_label_edits());
                },
            }
        }
    }

    /// The committed concept `id`, if present.
    fn base_concept(&self, id: usize) -> (r: Option<Concept>)
        ensures
            view_opt_concept(r) == map_get(self.base_concepts(), id),
    {
        if id < self.concepts.len() {
            match &self.concepts[id] {
                Some(c) => Some(c.clone()),
                None => None,
            }
        } else {
            None
        }
    }

    /// The committed label of `id`, if present.
    fn base_label(&self, id: usize) -> (r: Option<String>)
        ensures
            crate::concepts::view_opt_string(r) == map_get(self.base_labels(), id),
    {
        let ghost edits = self.base_label_edits();
        proof {
            assert(edits.take(self.labels@.len() as int) =~= edits);
        }
        let mut i = self.labels.len();
        while i > 0
            invariant
                i <= self.labels.len(),
                edits == self.base_label_edits(),
                edits.len() == self.labels.len(),
                find_label_edit(edits, id) == find_label_edit(edits.take(i as int), id),
            decreases i,
        {
            i = i - 1;
            if self.labels[i].0 == id {
                proof {
                    assert(edits.take(i + 1).last() == edits[i as int]);
                    lemma_apply_label_edits_lookup(Map::empty(), edits, id);
                }
                return Some(self.labels[i].1.clone());
            }
            proof {
                assert(edits.take(i + 1).drop_last() =~= edits.take(i as int));
            }
        }
        proof {
            assert(edits.take(0) =~= Seq::<(usize, Option<Seq<char>>)>::empty());
            lemma_apply_label_edits_lookup(Map::empty(), edits, id);
        }
        None
    }

    /// The label of `id` as seen through the chain, if any.
    pub fn stored_label(&self, deltas: &Vec<Delta>, id: usize) -> (r: Option<String>)
        ensures
            crate::concepts::view_opt_string(r) == map_get(self.graph(deltas@).labels, id),
    {
        let ghost vds = view_deltas(deltas@);
        let ghost full = self.graph(deltas@).labels;
        let mut j = deltas.len();
        proof {
            assert(vds.take(j as int) =~= vds);
        }
        while j > 0
            invariant
                j <= deltas.len(),
                vds == view_deltas(deltas@),
                vds.len() == deltas.len(),
                full == self.graph(deltas@).labels,
                map_get(full, id) == map_get(labels_after(self.base_labels(), vds.take(j as int)), id),
            decreases j,
        {
            j = j - 1;
            proof {
                assert(vds.take(j + 1).drop_last() =~= vds.take(j as int));
                assert(vds.take(j + 1).last() == vds[j as int]);
                lemma_apply_label_edits_lookup(
                    labels_after(self.base_labels(), vds.take(j as int)),
                    vds[j as int].labels,
                    id,
                );
            }
            match deltas[j].label_edit_for(id) {
                Some(edit) => {
                    return match edit {
                        Some(s) => Some(s.clone()),
                        None => None,
                    };
                },
                None => (),
            }
        }
        proof {
            assert(vds.take(0) =~= Seq::<crate::deltas::DeltaV>::empty());
        }
        self.base_label(id)
    }

    /// The concept id carrying the given label, as seen through the chain.
    /// Where several concepts carry the label, one of them is returned.
    pub fn concept_from_label(&self, deltas: &Vec<Delta>, label: &str) -> (r: Option<usize>)
        ensures
            match r {
                Some(id) => map_get(self.graph(deltas@).labels, id) == Some(label@),
                None => forall|id: usize|
                    map_get(self.graph(deltas@).labels, id) != Some(label@),
            },
    {
        let ghost labels = self.graph(deltas@).labels;
        let sought: String = String::from_str(label);
        let mut i: usize = 0;
        while i < self.labels.len()
            invariant
                i <= self.labels.len(),
                labels == self.graph(deltas@).labels,
                sought@ == label@,
                forall|k: int|
                    0 <= k < i ==> map_get(labels, #[trigger] self.labels@[k].0) != Some(label@),
            decreases self.labels.len() - i,
        {
            let id = self.labels[i].0;
            match self.stored_label(deltas, id) {
                Some(s) => {
                    if s.eq(&sought) {
                        return Some(id);
                    }
                },
                None => (),
            }
            i = i + 1;
        }
        let mut j: usize = 0;
        while j < deltas.len()
            invariant
                j <= deltas.len(),
                labels == self.graph(deltas@).labels,
                sought@ == label@,
                forall|k: int|
                    0 <= k < self.labels@.len() ==> map_get(labels, #[trigger] self.labels@[k].0)
                        != Some(label@),
                forall|k: int, n: int|
                    0 <= k < j && 0 <= n < deltas@[k].labels@.len() ==> map_get(
                        labels,
                        #[trigger] deltas@[k].labels@[n].0,
                    ) != Some(label@),
            decreases deltas.len() - j,
        {
            let d = &deltas[j];
            let mut n: usize = 0;
            while n < d.labels.len()
                invariant
                    n <= d.labels.len(),
                    labels == self.graph(deltas@).labels,
                    sought@ == label@,
                    d == &deltas@[j as int],
                    j < deltas.len(),
                    forall|m: int|
                        0 <= m < n ==> map_get(labels, #[trigger] d.labels@[m].0) != Some(label@),
                decreases d.labels.len() - n,
            {
                let id = d.labels[n].0;
                match self.stored_label(deltas, id) {
                    Some(s) => {
                        if s.eq(&sought) {
                            return Some(id);
                        }
                    },
                    None => (),
                }
                n = n + 1;
            }
            j = j + 1;
        }
        proof {
            self.lemma_label_domain(deltas@);
            assert forall|id: usize| map_get(labels, id) != Some(label@) by {
                if labels.contains_key(id) {
                }
            }
        }
        None
    }

    /// Every label visible through a chain is either committed or mentioned
    /// by some delta of the chain.
    proof fn lemma_label_domain(&self, ds: Seq<Delta>)
        ensures
            forall|id: usize|
                #[trigger] labels_after(self.base_labels(), view_deltas(ds)).contains_key(id)
                    ==> (exists|k: int|
                    0 <= k < self.labels@.len() && self.labels@[k].0 == id) || (exists|k: int, n: int|
                    0 <= k < ds.len() && 0 <= n < ds[k].labels@.len() && ds[k].labels@[n].0 == id),
        decreases ds.len(),
    {
        if ds.len() == 0 {
            assert(view_deltas(ds) =~= Seq::<crate::deltas::DeltaV>::empty());
            assert forall|id: usize| #[trigger]
                labels_after(self.base_labels(), view_deltas(ds)).contains_key(id) implies (exists|
                k: int,
            |
                0 <= k < self.labels@.len() && self.labels@[k].0 == id) by {
                self.lemma_base_label_domain(self.base_label_edits().len() as int, id);
                assert(self.base_label_edits().take(self.base_label_edits().len() as int)
                    =~= self.base_label_edits());
            }
        } else {
            self.lemma_label_domain(ds.drop_last());
            assert(view_deltas(ds).drop_last() =~= view_deltas(ds.drop_last()));
            assert forall|id: usize| #[trigger]
                labels_after(self.base_labels(), view_deltas(ds)).contains_key(id) implies ((exists|
                k: int,
            |
                0 <= k < self.labels@.len() && self.labels@[k].0 == id) || (exists|k: int, n: int|
                0 <= k < ds.len() && 0 <= n < ds[k].labels@.len() && ds[k].labels@[n].0 == id)) by {
                lemma_apply_label_edits_lookup(
                    labels_after(self.base_labels(), view_deltas(ds.drop_last())),
                    view_deltas(ds).last().labels,
                    id,
                );
                match find_label_edit(view_deltas(ds).last().labels, id) {
                    Some(e) => {
                        lemma_find_label_edit_mentions(view_deltas(ds).last().labels, id);
                        let n = choose|n: int|
                            0 <= n < view_deltas(ds).last().labels.len() && view_deltas(
                                ds,
                            ).last().labels[n].0 == id;
                        assert(ds[ds.len() - 1].labels@[n].0 == id);
                    },
                    None => {},
                }
            }
        }
    }

    /// Every committed label binding sits at some index of the label table.
    proof fn lemma_base_label_domain(&self, upto: int, id: usize)
        requires
            0 <= upto <= self.base_label_edits().len(),
        ensures
            apply_label_edits(Map::empty(), self.base_label_edits().take(upto)).contains_key(id)
                ==> exists|k: int| 0 <= k < self.labels@.len() && self.labels@[k].0 == id,
        decreases upto,
    {
        let edits = self.base_label_edits();
        if upto == 0 {
            assert(edits.take(0) =~= Seq::<(usize, Option<Seq<char>>)>::empty());
        } else {
            self.lemma_base_label_domain(upto - 1, id);
            assert(edits.take(upto).drop_last() =~= edits.take(upto - 1));
            if apply_label_edits(Map::empty(), edits.take(upto)).contains_key(id) {
                if edits.take(upto).last().0 == id {
                    assert(self.labels@[upto - 1].0 == id);
                }
            }
        }
        if upto == self.base_label_edits().len() {
            assert(edits.take(upto) =~= edits);
        }
    }

    /// The lowest concept id not occupied as seen through the chain. Every
    /// id below the result is occupied.
    pub fn lowest_unoccupied_concept_id(&self, deltas: &Vec<Delta>) -> (r: usize)
        requires
            forall|id: usize|
                #[trigger] concepts_after(self.base_concepts(), view_deltas(deltas@)).contains_key(
                    id,
                ) ==> id < usize::MAX,
        ensures
            !self.graph(deltas@).concepts.contains_key(r),
            forall|j: usize| j < r ==> self.graph(deltas@).concepts.contains_key(j),
    {
        let mut i: usize = 0;
        loop
            invariant
                forall|j: usize| j < i ==> self.graph(deltas@).concepts.contains_key(j),
                forall|id: usize|
                    #[trigger] self.graph(deltas@).concepts.contains_key(id) ==> id < usize::MAX,
            decreases usize::MAX - i,
        {
            match self.read_concept(deltas, i) {
                Some(_) => {
                    i = i + 1;
                },
                None => {
                    return i;
                },
            }
        }
    }
}

impl ConceptReader for Snapshot {
    open spec fn concepts_v(&self, ds: Seq<Delta>) -> Map<usize, ConceptV> {
        self.graph(ds).concepts
    }

    open spec fn labels_v(&self, ds: Seq<Delta>) -> Map<usize, Seq<char>> {
        self.graph(ds).labels
    }

    fn read_concept(&self, deltas: &Vec<Delta>, id: usize) -> (r: Option<Concept>)
        ensures
            view_opt_concept(r) == map_get(self.concepts_v(deltas@), id),
    {
        let ghost vds = view_deltas(deltas@);
        let ghost full = self.graph(deltas@).concepts;
        let mut j = deltas.len();
        proof {
            assert(vds.take(j as int) =~= vds);
        }
        while j > 0
            invariant
                j <= deltas.len(),
                vds == view_deltas(deltas@),
                vds.len() == deltas.len(),
                full == self.graph(deltas@).concepts,
                map_get(full, id) == map_get(
                    concepts_after(self.base_concepts(), vds.take(j as int)),
                    id,
                ),
            decreases j,
        {
            j = j - 1;
            proof {
                assert(vds.take(j + 1).drop_last() =~= vds.take(j as int));
                assert(vds.take(j + 1).last() == vds[j as int]);
                lemma_apply_concept_edits_lookup(
                    concepts_after(self.base_concepts(), vds.take(j as int)),
                    vds[j as int].concepts,
                    id,
                );
            }
            match deltas[j].concept_edit_for(id) {
                Some(edit) => {
                    return match edit {
                        crate::deltas::ConceptEdit::Write(c) => Some(c.clone()),
                        crate::deltas::ConceptEdit::Remove => None,
                    };
                },
                None => (),
            }
        }
        proof {
            assert(vds.take(0) =~= Seq::<crate::deltas::DeltaV>::empty());
        }
        self.base_concept(id)
    }
}

/// A label edit found for an id is held at some index of the run.
proof fn lemma_find_label_edit_mentions(edits: Seq<(usize, Option<Seq<char>>)>, id: usize)
    requires
        find_label_edit(edits, id) is Some,
    ensures
        exists|n: int| 0 <= n < edits.len() && edits[n].0 == id,
    decreases edits.len(),
{
    if edits.len() > 0 {
        if edits.last().0 == id {
            assert(edits[edits.len() - 1].0 == id);
        } else {
            lemma_find_label_edit_mentions(edits.drop_last(), id);
            let n = choose|n: int| 0 <= n < edits.drop_last().len() && edits.drop_last()[n].0 == id;
            assert(edits[n].0 == id);
        }
    }
}

} // verus!
