//! The concept: a node of the graph. A concept may carry a payload (its
//! *specific part*), a definition (it is the composition of two other
//! concepts), and a reduction (it rewrites to another concept). Reverse
//! indices (`lefthand_of`, `righthand_of`, `reduces_from`) are kept in
//! lock-step with the forward links by the constructors and mutators here.

use vstd::prelude::*;

verus! {

/// The payload of a concept: an opaque primitive, a placeholder with no
/// intrinsic meaning beyond its relations, or a literal text used for labels.
#[derive(Debug)]
pub enum SpecificPart {
    Concrete,
    Abstract,
    Text(String),
}

/// Mathematical model of a `SpecificPart`.
pub enum SpecificV {
    Concrete,
    Abstract,
    Text(Seq<char>),
}

impl View for SpecificPart {
    type V = SpecificV;

    open spec fn view(&self) -> SpecificV {
        match self {
            SpecificPart::Concrete => SpecificV::Concrete,
            SpecificPart::Abstract => SpecificV::Abstract,
            SpecificPart::Text(s) => SpecificV::Text(s@),
        }
    }
}

/// A node of the concept graph.
#[derive(Debug)]
pub struct Concept {
    pub id: usize,
    pub specific_part: SpecificPart,
    pub definition: Option<(usize, usize)>,
    pub lefthand_of: Vec<usize>,
    pub righthand_of: Vec<usize>,
    pub reduction: Option<usize>,
    pub reduces_from: Vec<usize>,
}

/// Mathematical model of a `Concept`.
pub struct ConceptV {
    pub id: usize,
    pub specific: SpecificV,
    pub definition: Option<(usize, usize)>,
    pub lefthand_of: Seq<usize>,
    pub righthand_of: Seq<usize>,
    pub reduction: Option<usize>,
    pub reduces_from: Seq<usize>,
}

impl View for Concept {
    type V = ConceptV;

    open spec fn view(&self) -> ConceptV {
        ConceptV {
            id: self.id,
            specific: self.specific_part@,
            definition: self.definition,
            lefthand_of: self.lefthand_of@,
            righthand_of: self.righthand_of@,
            reduction: self.reduction,
            reduces_from: self.reduces_from@,
        }
    }
}

/// The text of a payload, where it carries one.
pub open spec fn text_of(s: SpecificV) -> Option<Seq<char>> {
    match s {
        SpecificV::Text(t) => Some(t),
        _ => None,
    }
}

/// View of an optional owned string.
pub open spec fn view_opt_string(o: Option<String>) -> Option<Seq<char>> {
    match o {
        Some(s) => Some(s@),
        None => None,
    }
}

/// A copy of a vector of concept ids.
pub(crate) fn clone_ids(v: &Vec<usize>) -> (r: Vec<usize>)
    ensures
        r@ == v@,
{
    let mut r: Vec<usize> = Vec::new();
    let mut i: usize = 0;
    while i < v.len()
        invariant
            i <= v.len(),
            r@ =~= v@.take(i as int),
        decreases v.len() - i,
    {
        r.push(v[i]);
        i = i + 1;
        proof {
            assert(r@ =~= v@.take(i as int));
        }
    }
    proof {
        assert(v@.take(v@.len() as int) =~= v@);
    }
    r
}

impl Clone for SpecificPart {
    /// An identical payload.
    fn clone(&self) -> (r: SpecificPart)
        ensures
            r@ == self@,
    {
        match self {
            SpecificPart::Concrete => SpecificPart::Concrete,
            SpecificPart::Abstract => SpecificPart::Abstract,
            SpecificPart::Text(s) => SpecificPart::Text(s.clone()),
        }
    }
}

impl Clone for Concept {
    /// An identical concept, field for field.
    fn clone(&self) -> (r: Concept)
        ensures
            r@ == self@,
    {
        Concept {
            id: self.id,
            specific_part: self.specific_part.clone(),
            definition: self.definition,
            lefthand_of: clone_ids(&self.lefthand_of),
            righthand_of: clone_ids(&self.righthand_of),
            reduction: self.reduction,
            reduces_from: clone_ids(&self.reduces_from),
        }
    }
}

impl Concept {
    /// A fresh atomic concept with no relations.
    pub fn new(id: usize, specific_part: SpecificPart) -> (c: Concept)
        ensures
            c@ == (ConceptV {
                id,
                specific: specific_part@,
                definition: None,
                lefthand_of: Seq::empty(),
                righthand_of: Seq::empty(),
                reduction: None,
                reduces_from: Seq::empty(),
            }),
    {
        Concept {
            id,
            specific_part,
            definition: None,
            lefthand_of: Vec::new(),
            righthand_of: Vec::new(),
            reduction: None,
            reduces_from: Vec::new(),
        }
    }

    /// A fresh abstract concept defined as the composition of `left` and
    /// `right`, whose reverse indices are extended in lock-step.
    pub fn composition_of(id: usize, left: &mut Concept, right: &mut Concept) -> (c: Concept)
        ensures
            c@ == (ConceptV {
                id,
                specific: SpecificV::Abstract,
                definition: Some((old(left)@.id, old(right)@.id)),
                lefthand_of: Seq::empty(),
                righthand_of: Seq::empty(),
                reduction: None,
                reduces_from: Seq::empty(),
            }),
            final(left)@ == (ConceptV { lefthand_of: old(left)@.lefthand_of.push(id), ..old(left)@ }),
            final(right)@ == (ConceptV {
                righthand_of: old(right)@.righthand_of.push(id),
                ..old(right)@
            }),
    {
        left.lefthand_of.push(id);
        right.righthand_of.push(id);
        Concept {
            id,
            specific_part: SpecificPart::Abstract,
            definition: Some((left.id, right.id)),
            lefthand_of: Vec::new(),
            righthand_of: Vec::new(),
            reduction: None,
            reduces_from: Vec::new(),
        }
    }

    /// Makes this concept rewrite to `other`, extending `other`'s reverse
    /// index in lock-step. A reduction must not be self-referential.
    pub fn make_reduce_to(&mut self, other: &mut Concept)
        requires
            old(self)@.id != old(other)@.id,
        ensures
            final(self)@ == (ConceptV { reduction: Some(old(other)@.id), ..old(self)@ }),
            final(other)@ == (ConceptV {
                reduces_from: old(other)@.reduces_from.push(old(self)@.id),
                ..old(other)@
            }),
    {
        self.reduction = Some(other.id);
        other.reduces_from.push(self.id);
    }

    pub fn get_id(&self) -> (r: usize)
        ensures
            r == self@.id,
    {
        self.id
    }

    pub fn get_definition(&self) -> (r: Option<(usize, usize)>)
        ensures
            r == self@.definition,
    {
        self.definition
    }

    pub fn get_reduction(&self) -> (r: Option<usize>)
        ensures
            r == self@.reduction,
    {
        self.reduction
    }

    pub fn get_lefthand_of(&self) -> (r: &Vec<usize>)
        ensures
            r@ == self@.lefthand_of,
    {
        &self.lefthand_of
    }

    pub fn get_righthand_of(&self) -> (r: &Vec<usize>)
        ensures
            r@ == self@.righthand_of,
    {
        &self.righthand_of
    }

    /// The concepts whose reduction points here.
    pub fn find_what_reduces_to_it(&self) -> (r: &Vec<usize>)
        ensures
            r@ == self@.reduces_from,
    {
        &self.reduces_from
    }

    /// This concept without its definition edge.
    pub fn with_definition_removed(self) -> (c: Concept)
        ensures
            c@ == (ConceptV { definition: None, ..self@ }),
    {
        Concept { definition: None, ..self }
    }

    /// This concept with the first entry for `composite` taken out of its
    /// lefthand reverse index.
    pub fn with_lefthand_of_pruned(self, composite: usize) -> (c: Concept)
        ensures
            c@ == (ConceptV { lefthand_of: self@.lefthand_of.remove_value(composite), ..self@ }),
    {
        let mut out = self;
        let ghost prior = out@.lefthand_of;
        let mut i: usize = 0;
        while i < out.lefthand_of.len()
            invariant
                i <= out.lefthand_of.len(),
                out == self,
                out@.lefthand_of == prior,
                forall|k: int| 0 <= k < i ==> prior[k] != composite,
            decreases out.lefthand_of.len() - i,
        {
            if out.lefthand_of[i] == composite {
                proof {
                    prior.index_of_first_ensures(composite);
                }
                out.lefthand_of.remove(i);
                return out;
            }
            i = i + 1;
        }
        proof {
            prior.index_of_first_ensures(composite);
        }
        out
    }

    /// This concept with the first entry for `composite` taken out of its
    /// righthand reverse index.
    pub fn with_righthand_of_pruned(self, composite: usize) -> (c: Concept)
        ensures
            c@ == (ConceptV { righthand_of: self@.righthand_of.remove_value(composite), ..self@ }),
    {
        let mut out = self;
        let ghost prior = out@.righthand_of;
        let mut i: usize = 0;
        while i < out.righthand_of.len()
            invariant
                i <= out.righthand_of.len(),
                out == self,
                out@.righthand_of == prior,
                forall|k: int| 0 <= k < i ==> prior[k] != composite,
            decreases out.righthand_of.len() - i,
        {
            if out.righthand_of[i] == composite {
                proof {
                    prior.index_of_first_ensures(composite);
                }
                out.righthand_of.remove(i);
                return out;
            }
            i = i + 1;
        }
        proof {
            prior.index_of_first_ensures(composite);
        }
        out
    }

    /// The text payload, where the specific part carries one.
    pub fn get_string(&self) -> (r: Option<String>)
        ensures
            view_opt_string(r) == text_of(self@.specific),
    {
        match &self.specific_part {
            SpecificPart::Text(s) => Some(s.clone()),
            _ => None,
        }
    }
}

} // verus!
