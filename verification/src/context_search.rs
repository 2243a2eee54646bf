//! One search session over the graph: a snapshot reference, a chain of
//! deltas, the designated relation concepts, and a depth budget, bound into
//! a façade that exposes the whole reading, rewriting and comparison
//! operation set. Every operation returns exactly what the specification
//! functions of `reading` say about the graph seen through the chain.

use vstd::prelude::*;
use vstd::string::StringExecFns;
use crate::ast::{view_opt_tree, BindConcept, SyntaxTree, TreeV};
use crate::deltas::Delta;
use crate::reading::{
    reader_graph_of, sp_combine, sp_compare, sp_concept_syntax, sp_contract_pair,
    sp_determine_evidence_of_reduction, sp_determine_reduction_truth, sp_display_joint,
    sp_expand, sp_get_associativity, sp_greater_than_query, sp_has_higher_precedence, sp_join,
    sp_match_left_right, sp_recursively_reduce, sp_reduce, sp_reduce_concept, sp_reduce_pair,
    sp_to_ast, Associativity, Comparison, FindDefinition, GetLabel, ZiaError,
};
use crate::snapshot::{map_get, ConceptReader, DesignatedIds, GraphV, Snapshot};

verus! {

/// View of a tree result.
pub open spec fn view_res_tree(r: Result<SyntaxTree, ZiaError>) -> Result<TreeV, ZiaError> {
    match r {
        Ok(t) => Ok(t@),
        Err(e) => Err(e),
    }
}

/// View of an optional tree result.
pub open spec fn view_res_opt_tree(r: Result<Option<SyntaxTree>, ZiaError>) -> Result<
    Option<TreeV>,
    ZiaError,
> {
    match r {
        Ok(o) => Ok(view_opt_tree(o)),
        Err(e) => Err(e),
    }
}

/// View of a text result.
pub open spec fn view_res_string(r: Result<String, ZiaError>) -> Result<Seq<char>, ZiaError> {
    match r {
        Ok(s) => Ok(s@),
        Err(e) => Err(e),
    }
}

/// The memo table of one search session: rewriting results already
/// computed against this session's graph state and depth budget. A cache
/// is valid only for the exact state it was built against, so it is owned
/// by its session and dies with it.
pub struct ContextCache {
    /// Memoized single rewriting steps.
    pub reductions: Vec<(SyntaxTree, Option<SyntaxTree>)>,
    /// Memoized normal forms.
    pub normal_forms: Vec<(SyntaxTree, SyntaxTree)>,
}

impl ContextCache {
    /// An empty memo table.
    pub fn new() -> (c: ContextCache)
        ensures
            c.reductions@ == Seq::<(SyntaxTree, Option<SyntaxTree>)>::empty(),
            c.normal_forms@ == Seq::<(SyntaxTree, SyntaxTree)>::empty(),
    {
        ContextCache { reductions: Vec::new(), normal_forms: Vec::new() }
    }
}

impl Default for ContextCache {
    /// An empty memo table.
    fn default() -> (c: ContextCache)
        ensures
            c.reductions@ == Seq::<(SyntaxTree, Option<SyntaxTree>)>::empty(),
            c.normal_forms@ == Seq::<(SyntaxTree, SyntaxTree)>::empty(),
    {
        ContextCache::new()
    }
}

/// A search session: read-only access to one graph state, a depth budget
/// for the rewriting searches run against it, and a memo table of results
/// already computed within the session.
pub struct ContextSearch<'a> {
    /// The committed graph.
    pub snapshot: &'a Snapshot,
    /// The overlays the session reads through.
    pub deltas: &'a Vec<Delta>,
    /// The designated relation concepts.
    pub ids: DesignatedIds,
    /// How deep any rewriting search may go before it faults.
    pub depth: usize,
    /// The session's memo table.
    pub cache: ContextCache,
}

impl<'a> ContextSearch<'a> {
    /// The graph this session reads.
    pub open spec fn g(&self) -> GraphV {
        self.snapshot.graph(self.deltas@)
    }

    /// The depth budget of this session.
    pub open spec fn budget(&self) -> nat {
        self.depth as nat
    }

    /// Every memoized result is what the specification says this session's
    /// graph state and depth budget give. Constructors establish this and
    /// every method preserves it.
    pub open spec fn wf(&self) -> bool {
        (forall|k: int|
            0 <= k < self.cache.reductions@.len() ==> sp_reduce(
                self.g(),
                self.ids,
                (#[trigger] self.cache.reductions@[k]).0@,
                self.budget(),
            ) == Ok::<Option<TreeV>, ZiaError>(view_opt_tree(self.cache.reductions@[k].1)))
            && (forall|k: int|
            0 <= k < self.cache.normal_forms@.len() ==> sp_recursively_reduce(
                self.g(),
                self.ids,
                (#[trigger] self.cache.normal_forms@[k]).0@,
                self.budget(),
            ) == Ok::<TreeV, ZiaError>(self.cache.normal_forms@[k].1@))
    }

    /// Whether two sessions read the same graph state under the same
    /// budget.
    pub open spec fn same_session(&self, other: &ContextSearch<'a>) -> bool {
        self.snapshot == other.snapshot && self.deltas == other.deltas && self.ids == other.ids
            && self.depth == other.depth
    }

    /// A fresh session over the given graph state, with an empty memo
    /// table.
    pub fn new(
        snapshot: &'a Snapshot,
        deltas: &'a Vec<Delta>,
        ids: DesignatedIds,
        depth: usize,
    ) -> (s: ContextSearch<'a>)
        ensures
            s.snapshot == snapshot,
            s.deltas == deltas,
            s.ids == ids,
            s.depth == depth,
            s.wf(),
    {
        ContextSearch { snapshot, deltas, ids, depth, cache: ContextCache::new() }
    }

    /// The graphs of the session and of its snapshot reader coincide.
    proof fn lemma_g(&self)
        ensures
            reader_graph_of(self.snapshot, self.deltas@) == self.g(),
    {
    }

    /// The rendering of a concept for the reading paths; see `sp_to_ast`.
    fn to_ast_within(&self, concept: usize, fuel: usize) -> (r: Result<SyntaxTree, ZiaError>)
        ensures
            view_res_tree(r) == sp_to_ast(self.g(), self.ids, concept, fuel as nat),
        decreases fuel,
    {
        proof {
            self.lemma_g();
        }
        if fuel == 0 {
            return Err(ZiaError::DepthLimitReached);
        }
        match self.snapshot.get_label(self.deltas, &self.ids, concept, fuel - 1) {
            Err(e) => Err(e),
            Ok(Some(s)) => Ok(SyntaxTree { syntax: s, concept: Some(concept), expansion: None }),
            Ok(None) => match self.snapshot.read_concept(self.deltas, concept) {
                None => Err(ZiaError::UnknownConcept),
                Some(c) => match c.get_definition() {
                    None => Err(ZiaError::MissingDefinition),
                    Some((l, r)) => match self.to_ast_within(l, fuel - 1) {
                        Err(e) => Err(e),
                        Ok(lt) => match self.to_ast_within(r, fuel - 1) {
                            Err(e) => Err(e),
                            Ok(rt) => self.combine_within(&lt, &rt, fuel - 1),
                        },
                    },
                },
            },
        }
    }

    /// The rendering of a concept for the rewriting paths; see
    /// `sp_concept_syntax`.
    fn concept_syntax_within(&self, concept: usize, fuel: usize) -> (r: Result<
        SyntaxTree,
        ZiaError,
    >)
        ensures
            view_res_tree(r) == sp_concept_syntax(self.g(), self.ids, concept, fuel as nat),
        decreases fuel,
    {
        proof {
            self.lemma_g();
        }
        if fuel == 0 {
            return Err(ZiaError::DepthLimitReached);
        }
        match self.snapshot.get_label(self.deltas, &self.ids, concept, fuel - 1) {
            Err(e) => Err(e),
            Ok(Some(s)) => Ok(SyntaxTree { syntax: s, concept: Some(concept), expansion: None }),
            Ok(None) => match self.snapshot.read_concept(self.deltas, concept) {
                None => Err(ZiaError::UnknownConcept),
                Some(c) => match c.get_definition() {
                    None => Ok(SyntaxTree::new_concept(concept)),
                    Some((l, r)) => match self.concept_syntax_within(l, fuel - 1) {
                        Err(e) => Err(e),
                        Ok(lt) => match self.concept_syntax_within(r, fuel - 1) {
                            Err(e) => Err(e),
                            Ok(rt) => self.combine_within(&lt, &rt, fuel - 1),
                        },
                    },
                },
            },
        }
    }

    /// The unbound pair of two trees; see `sp_join`.
    fn join_within(&self, a: &SyntaxTree, b: &SyntaxTree, fuel: usize) -> (r: Result<
        SyntaxTree,
        ZiaError,
    >)
        ensures
            view_res_tree(r) == sp_join(self.g(), self.ids, a@, b@, fuel as nat),
        decreases fuel,
    {
        if fuel == 0 {
            return Err(ZiaError::DepthLimitReached);
        }
        match self.display_joint_within(a, b, fuel - 1) {
            Err(e) => Err(e),
            Ok(s) => Ok(
                SyntaxTree { syntax: s, concept: None, expansion: None }.bind_pair(a, b),
            ),
        }
    }

    /// The pair of two trees, bound to their composite; see `sp_combine`.
    fn combine_within(&self, a: &SyntaxTree, b: &SyntaxTree, fuel: usize) -> (r: Result<
        SyntaxTree,
        ZiaError,
    >)
        ensures
            view_res_tree(r) == sp_combine(self.g(), self.ids, a@, b@, fuel as nat),
        decreases fuel,
    {
        proof {
            self.lemma_g();
        }
        if fuel == 0 {
            return Err(ZiaError::DepthLimitReached);
        }
        match (a.get_concept(), b.get_concept()) {
            (Some(l), Some(r)) => match self.snapshot.find_definition(self.deltas, l, r) {
                Err(e) => Err(e),
                Ok(Some(def)) => match self.join_within(a, b, fuel - 1) {
                    Err(e) => Err(e),
                    Ok(t) => Ok(t.bind_concept(def)),
                },
                Ok(None) => self.join_within(a, b, fuel - 1),
            },
            _ => self.join_within(a, b, fuel - 1),
        }
    }

    /// The printed form of a juxtaposition; see `sp_display_joint`.
    fn display_joint_within(&self, l: &SyntaxTree, r: &SyntaxTree, fuel: usize) -> (res: Result<
        String,
        ZiaError,
    >)
        ensures
            view_res_string(res) == sp_display_joint(self.g(), self.ids, l@, r@, fuel as nat),
        decreases fuel,
    {
        if fuel == 0 {
            return Err(ZiaError::DepthLimitReached);
        }
        let lstr: String = match l.get_expansion() {
            Some((a, b)) => match self.get_associativity_within(b, fuel - 1) {
                Err(e) => {
                    return Err(e);
                },
                Ok(Some(Associativity::Left)) => a.display_string().clone().concat(" ").concat(
                    b.display_string().as_str(),
                ),
                Ok(Some(Associativity::Right)) => String::from_str("(").concat(
                    a.display_string().as_str(),
                ).concat(" ").concat(b.display_string().as_str()).concat(")"),
                Ok(None) => {
                    return Err(ZiaError::UnresolvedAssociativity);
                },
            },
            None => l.display_string().clone(),
        };
        let rstr: String = match r.get_expansion() {
            Some((a, b)) => match self.get_associativity_within(a, fuel - 1) {
                Err(e) => {
                    return Err(e);
                },
                Ok(Some(Associativity::Left)) => String::from_str("(").concat(
                    a.display_string().as_str(),
                ).concat(" ").concat(b.display_string().as_str()).concat(")"),
                Ok(Some(Associativity::Right)) => a.display_string().clone().concat(" ").concat(
                    b.display_string().as_str(),
                ),
                Ok(None) => {
                    return Err(ZiaError::UnresolvedAssociativity);
                },
            },
            None => r.display_string().clone(),
        };
        Ok(lstr.concat(" ").concat(rstr.as_str()))
    }

    /// The associativity of a tree; see `sp_get_associativity`.
    fn get_associativity_within(&self, t: &SyntaxTree, fuel: usize) -> (r: Result<
        Option<Associativity>,
        ZiaError,
    >)
        ensures
            r == sp_get_associativity(self.g(), self.ids, t@, fuel as nat),
        decreases fuel,
    {
        if fuel == 0 {
            return Err(ZiaError::DepthLimitReached);
        }
        match self.concept_syntax_within(self.ids.assoc_id, fuel - 1) {
            Err(e) => Err(e),
            Ok(assoc_ast) => match self.combine_within(&assoc_ast, t, fuel - 1) {
                Err(e) => Err(e),
                Ok(q) => match self.reduce_within(&q, fuel - 1) {
                    Err(e) => Err(e),
                    Ok(None) => Ok(None),
                    Ok(Some(res)) => {
                        if res.get_concept() == Some(self.ids.left_id) {
                            Ok(Some(Associativity::Left))
                        } else if res.get_concept() == Some(self.ids.right_id) {
                            Ok(Some(Associativity::Right))
                        } else {
                            Ok(None)
                        }
                    },
                },
            },
        }
    }

    /// Whether one tree binds more tightly than another; see
    /// `sp_has_higher_precedence`.
    fn has_higher_precedence_within(&self, l: &SyntaxTree, r: &SyntaxTree, fuel: usize) -> (res:
        Result<Option<bool>, ZiaError>)
        ensures
            res == sp_has_higher_precedence(self.g(), self.ids, l@, r@, fuel as nat),
        decreases fuel,
    {
        if fuel == 0 {
            return Err(ZiaError::DepthLimitReached);
        }
        match self.concept_syntax_within(self.ids.precedence_id, fuel - 1) {
            Err(e) => Err(e),
            Ok(prec_ast) => match self.combine_within(&prec_ast, r, fuel - 1) {
                Err(e) => Err(e),
                Ok(inner) => match self.combine_within(l, &inner, fuel - 1) {
                    Err(e) => Err(e),
                    Ok(q) => match self.reduce_within(&q, fuel - 1) {
                        Err(e) => Err(e),
                        Ok(None) => Ok(None),
                        Ok(Some(res2)) => {
                            if res2.get_concept() == Some(self.ids.true_id) {
                                Ok(Some(true))
                            } else if res2.get_concept() == Some(self.ids.false_id) {
                                Ok(Some(false))
                            } else {
                                Ok(None)
                            }
                        },
                    },
                },
            },
        }
    }

    /// One rewriting step of a tree; see `sp_reduce`.
    fn reduce_within(&self, t: &SyntaxTree, fuel: usize) -> (r: Result<
        Option<SyntaxTree>,
        ZiaError,
    >)
        ensures
            view_res_opt_tree(r) == sp_reduce(self.g(), self.ids, t@, fuel as nat),
        decreases fuel,
    {
        if fuel == 0 {
            return Err(ZiaError::DepthLimitReached);
        }
        match t.get_concept() {
            Some(c) => self.reduce_concept_within(c, fuel - 1),
            None => match t.get_expansion() {
                None => Ok(None),
                Some((l, r)) => {
                    if l.get_concept() == Some(self.ids.assoc_id) {
                        match self.concept_syntax_within(self.ids.right_id, fuel - 1) {
                            Err(e) => Err(e),
                            Ok(t2) => Ok(Some(t2)),
                        }
                    } else {
                        let assertion = match r.get_expansion() {
                            Some((rl, _)) => rl.get_concept() == Some(self.ids.reduction_id),
                            None => false,
                        };
                        if assertion {
                            let (_, rr) = r.get_expansion().unwrap();
                            match self.determine_reduction_truth_within(l, rr, fuel - 1) {
                                Err(e) => Err(e),
                                Ok(Some(true)) => match self.concept_syntax_within(
                                    self.ids.true_id,
                                    fuel - 1,
                                ) {
                                    Err(e) => Err(e),
                                    Ok(t2) => Ok(Some(t2)),
                                },
                                Ok(Some(false)) => match self.concept_syntax_within(
                                    self.ids.false_id,
                                    fuel - 1,
                                ) {
                                    Err(e) => Err(e),
                                    Ok(t2) => Ok(Some(t2)),
                                },
                                Ok(None) => self.reduce_pair_within(l, r, fuel - 1),
                            }
                        } else {
                            self.reduce_pair_within(l, r, fuel - 1)
                        }
                    }
                },
            },
        }
    }

    /// The structural rewriting of a pair; see `sp_reduce_pair`.
    fn reduce_pair_within(&self, l: &SyntaxTree, r: &SyntaxTree, fuel: usize) -> (res: Result<
        Option<SyntaxTree>,
        ZiaError,
    >)
        ensures
            view_res_opt_tree(res) == sp_reduce_pair(self.g(), self.ids, l@, r@, fuel as nat),
        decreases fuel,
    {
        if fuel == 0 {
            return Err(ZiaError::DepthLimitReached);
        }
        match self.reduce_within(l, fuel - 1) {
            Err(e) => Err(e),
            Ok(lred) => match self.reduce_within(r, fuel - 1) {
                Err(e) => Err(e),
                Ok(rred) => self.match_left_right_within(lred, rred, l, r, fuel - 1),
            },
        }
    }

    /// One rewriting step of a concept; see `sp_reduce_concept`.
    fn reduce_concept_within(&self, concept: usize, fuel: usize) -> (r: Result<
        Option<SyntaxTree>,
        ZiaError,
    >)
        ensures
            view_res_opt_tree(r) == sp_reduce_concept(self.g(), self.ids, concept, fuel as nat),
        decreases fuel,
    {
        proof {
            self.lemma_g();
        }
        if fuel == 0 {
            return Err(ZiaError::DepthLimitReached);
        }
        match self.snapshot.read_concept(self.deltas, concept) {
            None => Err(ZiaError::UnknownConcept),
            Some(c) => match c.get_reduction() {
                Some(n) => match self.concept_syntax_within(n, fuel - 1) {
                    Err(e) => Err(e),
                    Ok(t) => Ok(Some(t)),
                },
                None => match c.get_definition() {
                    None => Ok(None),
                    Some((l, r)) => match self.reduce_concept_within(l, fuel - 1) {
                        Err(e) => Err(e),
                        Ok(lred) => match self.reduce_concept_within(r, fuel - 1) {
                            Err(e) => Err(e),
                            Ok(rred) => match self.concept_syntax_within(l, fuel - 1) {
                                Err(e) => Err(e),
                                Ok(lt) => match self.concept_syntax_within(r, fuel - 1) {
                                    Err(e) => Err(e),
                                    Ok(rt) => self.match_left_right_within(
                                        lred,
                                        rred,
                                        &lt,
                                        &rt,
                                        fuel - 1,
                                    ),
                                },
                            },
                        },
                    },
                },
            },
        }
    }

    /// Folds rewritten children back into a pair; see `sp_match_left_right`.
    fn match_left_right_within(
        &self,
        l: Option<SyntaxTree>,
        r: Option<SyntaxTree>,
        original_l: &SyntaxTree,
        original_r: &SyntaxTree,
        fuel: usize,
    ) -> (res: Result<Option<SyntaxTree>, ZiaError>)
        ensures
            view_res_opt_tree(res) == sp_match_left_right(
                self.g(),
                self.ids,
                view_opt_tree(l),
                view_opt_tree(r),
                original_l@,
                original_r@,
                fuel as nat,
            ),
        decreases fuel,
    {
        if fuel == 0 {
            return Err(ZiaError::DepthLimitReached);
        }
        match (l, r) {
            (None, None) => Ok(None),
            (Some(nl), None) => match self.contract_pair_within(&nl, original_r, fuel - 1) {
                Err(e) => Err(e),
                Ok(t) => Ok(Some(t)),
            },
            (None, Some(nr)) => match self.contract_pair_within(original_l, &nr, fuel - 1) {
                Err(e) => Err(e),
                Ok(t) => Ok(Some(t)),
            },
            (Some(nl), Some(nr)) => match self.contract_pair_within(&nl, &nr, fuel - 1) {
                Err(e) => Err(e),
                Ok(t) => Ok(Some(t)),
            },
        }
    }

    /// The pair of two already-rewritten trees; see `sp_contract_pair`.
    fn contract_pair_within(&self, l: &SyntaxTree, r: &SyntaxTree, fuel: usize) -> (res: Result<
        SyntaxTree,
        ZiaError,
    >)
        ensures
            view_res_tree(res) == sp_contract_pair(self.g(), self.ids, l@, r@, fuel as nat),
        decreases fuel,
    {
        proof {
            self.lemma_g();
        }
        if fuel == 0 {
            return Err(ZiaError::DepthLimitReached);
        }
        match (l.get_concept(), r.get_concept()) {
            (Some(lc), Some(rc)) => match self.snapshot.find_definition(self.deltas, lc, rc) {
                Err(e) => Err(e),
                Ok(Some(def)) => match self.snapshot.get_label(
                    self.deltas,
                    &self.ids,
                    def,
                    fuel - 1,
                ) {
                    Err(e) => Err(e),
                    Ok(Some(s)) => Ok(
                        SyntaxTree { syntax: s, concept: Some(def), expansion: None }.bind_pair(
                            l,
                            r,
                        ),
                    ),
                    Ok(None) => match self.join_within(l, r, fuel - 1) {
                        Err(e) => Err(e),
                        Ok(t) => Ok(t.bind_concept(def)),
                    },
                },
                Ok(None) => self.join_within(l, r, fuel - 1),
            },
            _ => self.join_within(l, r, fuel - 1),
        }
    }

    /// Whether one tree rewrites to another; see
    /// `sp_determine_reduction_truth`.
    fn determine_reduction_truth_within(&self, l: &SyntaxTree, r: &SyntaxTree, fuel: usize) -> (
        res: Result<Option<bool>, ZiaError>)
        ensures
            res == sp_determine_reduction_truth(self.g(), self.ids, l@, r@, fuel as nat),
        decreases fuel,
    {
        if fuel == 0 {
            return Err(ZiaError::DepthLimitReached);
        }
        if l.structurally_equal(r) {
            return Ok(Some(false));
        }
        match self.determine_evidence_of_reduction_within(l, r, fuel - 1) {
            Err(e) => Err(e),
            Ok(Some(x)) => Ok(Some(x)),
            Ok(None) => match self.determine_evidence_of_reduction_within(r, l, fuel - 1) {
                Err(e) => Err(e),
                Ok(Some(x)) => Ok(Some(!x)),
                Ok(None) => Ok(None),
            },
        }
    }

    /// Whether the rewriting chain out of one tree passes through another;
    /// see `sp_determine_evidence_of_reduction`.
    fn determine_evidence_of_reduction_within(
        &self,
        l: &SyntaxTree,
        r: &SyntaxTree,
        fuel: usize,
    ) -> (res: Result<Option<bool>, ZiaError>)
        ensures
            res == sp_determine_evidence_of_reduction(self.g(), self.ids, l@, r@, fuel as nat),
        decreases fuel,
    {
        if fuel == 0 {
            return Err(ZiaError::DepthLimitReached);
        }
        match self.reduce_within(l, fuel - 1) {
            Err(e) => Err(e),
            Ok(None) => Ok(None),
            Ok(Some(lred)) => {
                if lred.structurally_equal(r) {
                    Ok(Some(true))
                } else {
                    self.determine_evidence_of_reduction_within(&lred, r, fuel - 1)
                }
            },
        }
    }

    /// Unfolds a tree outward-in; see `sp_expand`.
    fn expand_within(&self, t: &SyntaxTree, fuel: usize) -> (r: Result<SyntaxTree, ZiaError>)
        ensures
            view_res_tree(r) == sp_expand(self.g(), self.ids, t@, fuel as nat),
        decreases fuel,
    {
        proof {
            self.lemma_g();
        }
        if fuel == 0 {
            return Err(ZiaError::DepthLimitReached);
        }
        match t.get_concept() {
            Some(c) => match self.snapshot.read_concept(self.deltas, c) {
                None => Err(ZiaError::UnknownConcept),
                Some(con) => match con.get_definition() {
                    Some((l, r)) => match self.to_ast_within(l, fuel - 1) {
                        Err(e) => Err(e),
                        Ok(lt) => match self.expand_within(&lt, fuel - 1) {
                            Err(e) => Err(e),
                            Ok(le) => match self.to_ast_within(r, fuel - 1) {
                                Err(e) => Err(e),
                                Ok(rt) => match self.expand_within(&rt, fuel - 1) {
                                    Err(e) => Err(e),
                                    Ok(re) => self.combine_within(&le, &re, fuel - 1),
                                },
                            },
                        },
                    },
                    None => self.to_ast_within(c, fuel - 1),
                },
            },
            None => match t.get_expansion() {
                Some((l, r)) => match self.expand_within(l, fuel - 1) {
                    Err(e) => Err(e),
                    Ok(le) => match self.expand_within(r, fuel - 1) {
                        Err(e) => Err(e),
                        Ok(re) => self.combine_within(&le, &re, fuel - 1),
                    },
                },
                None => Ok(t.clone()),
            },
        }
    }

    /// Rewrites a tree to its fixed point; see `sp_recursively_reduce`.
    fn recursively_reduce_within(&self, t: &SyntaxTree, fuel: usize) -> (r: Result<
        SyntaxTree,
        ZiaError,
    >)
        ensures
            view_res_tree(r) == sp_recursively_reduce(self.g(), self.ids, t@, fuel as nat),
        decreases fuel,
    {
        if fuel == 0 {
            return Err(ZiaError::DepthLimitReached);
        }
        match self.reduce_within(t, fuel - 1) {
            Err(e) => Err(e),
            Ok(Some(next)) => self.recursively_reduce_within(&next, fuel - 1),
            Ok(None) => Ok(t.clone()),
        }
    }

    /// The full rewriting of a greater-than query; see
    /// `sp_greater_than_query`.
    fn greater_than_query_within(&self, a: &SyntaxTree, b: &SyntaxTree, fuel: usize) -> (res:
        Result<Option<bool>, ZiaError>)
        ensures
            res == sp_greater_than_query(self.g(), self.ids, a@, b@, fuel as nat),
        decreases fuel,
    {
        if fuel == 0 {
            return Err(ZiaError::DepthLimitReached);
        }
        match self.concept_syntax_within(self.ids.greater_than_id, fuel - 1) {
            Err(e) => Err(e),
            Ok(gt) => match self.combine_within(&gt, b, fuel - 1) {
                Err(e) => Err(e),
                Ok(inner) => match self.combine_within(a, &inner, fuel - 1) {
                    Err(e) => Err(e),
                    Ok(q) => match self.recursively_reduce_within(&q, fuel - 1) {
                        Err(e) => Err(e),
                        Ok(res2) => {
                            if res2.get_concept() == Some(self.ids.true_id) {
                                Ok(Some(true))
                            } else if res2.get_concept() == Some(self.ids.false_id) {
                                Ok(Some(false))
                            } else {
                                Ok(None)
                            }
                        },
                    },
                },
            },
        }
    }

    /// The position of a memoized rewriting step for `t`, if any.
    fn find_cached_reduction(entries: &Vec<(SyntaxTree, Option<SyntaxTree>)>, t: &SyntaxTree) -> (r:
        Option<usize>)
        ensures
            match r {
                Some(k) => k < entries@.len() && entries@[k as int].0@ == t@,
                None => true,
            },
    {
        let mut k: usize = 0;
        while k < entries.len()
            decreases entries.len() - k,
        {
            if entries[k].0.same_view(t) {
                return Some(k);
            }
            k = k + 1;
        }
        None
    }

    /// The position of a memoized normal form for `t`, if any.
    fn find_cached_normal_form(entries: &Vec<(SyntaxTree, SyntaxTree)>, t: &SyntaxTree) -> (r:
        Option<usize>)
        ensures
            match r {
                Some(k) => k < entries@.len() && entries@[k as int].0@ == t@,
                None => true,
            },
    {
        let mut k: usize = 0;
        while k < entries.len()
            decreases entries.len() - k,
        {
            if entries[k].0.same_view(t) {
                return Some(k);
            }
            k = k + 1;
        }
        None
    }

    /// The syntax tree of a concept. A concept with neither label nor
    /// definition faults: every concept a caller reads must be either
    /// named or decomposable.
    pub fn to_ast(&self, concept: usize) -> (r: Result<SyntaxTree, ZiaError>)
        ensures
            view_res_tree(r) == sp_to_ast(self.g(), self.ids, concept, self.budget()),
    {
        self.to_ast_within(concept, self.depth)
    }

    /// Unfolds a tree outward-in into atomic or labelled leaves.
    pub fn expand(&self, ast: &SyntaxTree) -> (r: Result<SyntaxTree, ZiaError>)
        ensures
            view_res_tree(r) == sp_expand(self.g(), self.ids, ast@, self.budget()),
    {
        self.expand_within(ast, self.depth)
    }

    /// One rewriting step, memoized within the session. `Ok(None)` means
    /// the tree is already a normal form at this node.
    pub fn reduce(&mut self, ast: &SyntaxTree) -> (r: Result<Option<SyntaxTree>, ZiaError>)
        requires
            old(self).wf(),
        ensures
            final(self).wf(),
            final(self).same_session(old(self)),
            view_res_opt_tree(r) == sp_reduce(
                old(self).g(),
                old(self).ids,
                ast@,
                old(self).budget(),
            ),
    {
        match Self::find_cached_reduction(&self.cache.reductions, ast) {
            Some(k) => match &self.cache.reductions[k].1 {
                Some(t) => Ok(Some(t.clone())),
                None => Ok(None),
            },
            None => {
                let r = self.reduce_within(ast, self.depth);
                match &r {
                    Ok(v) => {
                        let copy = match v {
                            Some(t) => Some(t.clone()),
                            None => None,
                        };
                        let ghost prior = self.cache.reductions@;
                        self.cache.reductions.push((ast.clone(), copy));
                        proof {
                            assert forall|k2: int|
                                0 <= k2 < self.cache.reductions@.len() implies sp_reduce(
                                self.g(),
                                self.ids,
                                (#[trigger] self.cache.reductions@[k2]).0@,
                                self.budget(),
                            ) == Ok::<Option<TreeV>, ZiaError>(
                                view_opt_tree(self.cache.reductions@[k2].1),
                            ) by {
                                if k2 < prior.len() {
                                    assert(self.cache.reductions@[k2] == prior[k2]);
                                }
                            }
                        }
                        r
                    },
                    Err(_) => r,
                }
            },
        }
    }

    /// The normal form of a tree: rewriting iterated to its fixed point,
    /// memoized within the session.
    pub fn recursively_reduce(&mut self, ast: &SyntaxTree) -> (r: Result<SyntaxTree, ZiaError>)
        requires
            old(self).wf(),
        ensures
            final(self).wf(),
            final(self).same_session(old(self)),
            view_res_tree(r) == sp_recursively_reduce(
                old(self).g(),
                old(self).ids,
                ast@,
                old(self).budget(),
            ),
    {
        match Self::find_cached_normal_form(&self.cache.normal_forms, ast) {
            Some(k) => Ok(self.cache.normal_forms[k].1.clone()),
            None => {
                let r = self.recursively_reduce_within(ast, self.depth);
                match &r {
                    Ok(v) => {
                        let copy = v.clone();
                        let ghost prior = self.cache.normal_forms@;
                        self.cache.normal_forms.push((ast.clone(), copy));
                        proof {
                            assert forall|k2: int|
                                0 <= k2 < self.cache.normal_forms@.len()
                                implies sp_recursively_reduce(
                                self.g(),
                                self.ids,
                                (#[trigger] self.cache.normal_forms@[k2]).0@,
                                self.budget(),
                            ) == Ok::<TreeV, ZiaError>(self.cache.normal_forms@[k2].1@) by {
                                if k2 < prior.len() {
                                    assert(self.cache.normal_forms@[k2] == prior[k2]);
                                }
                            }
                        }
                        r
                    },
                    Err(_) => r,
                }
            },
        }
    }

    /// One rewriting step of a concept.
    pub fn reduce_concept(&self, concept: usize) -> (r: Result<Option<SyntaxTree>, ZiaError>)
        ensures
            view_res_opt_tree(r) == sp_reduce_concept(self.g(), self.ids, concept, self.budget()),
    {
        self.reduce_concept_within(concept, self.depth)
    }

    /// The pair of two trees, bound to their composite concept where
    /// exactly one exists.
    pub fn combine(&self, ast: &SyntaxTree, other: &SyntaxTree) -> (r: Result<
        SyntaxTree,
        ZiaError,
    >)
        ensures
            view_res_tree(r) == sp_combine(self.g(), self.ids, ast@, other@, self.budget()),
    {
        self.combine_within(ast, other, self.depth)
    }

    /// The unbound pair of two trees.
    pub fn join(&self, left: &SyntaxTree, right: &SyntaxTree) -> (r: Result<SyntaxTree, ZiaError>)
        ensures
            view_res_tree(r) == sp_join(self.g(), self.ids, left@, right@, self.budget()),
    {
        self.join_within(left, right, self.depth)
    }

    /// The pair of two already-rewritten trees, bound to their composite
    /// concept whenever exactly one exists and displayed by its label
    /// where it has one.
    pub fn contract_pair(&self, lefthand: &SyntaxTree, righthand: &SyntaxTree) -> (r: Result<
        SyntaxTree,
        ZiaError,
    >)
        ensures
            view_res_tree(r) == sp_contract_pair(
                self.g(),
                self.ids,
                lefthand@,
                righthand@,
                self.budget(),
            ),
    {
        self.contract_pair_within(lefthand, righthand, self.depth)
    }

    /// Folds rewritten children back into a pair: `Ok(None)` only where
    /// neither side changed.
    pub fn match_left_right(
        &self,
        left: Option<SyntaxTree>,
        right: Option<SyntaxTree>,
        original_left: &SyntaxTree,
        original_right: &SyntaxTree,
    ) -> (r: Result<Option<SyntaxTree>, ZiaError>)
        ensures
            view_res_opt_tree(r) == sp_match_left_right(
                self.g(),
                self.ids,
                view_opt_tree(left),
                view_opt_tree(right),
                original_left@,
                original_right@,
                self.budget(),
            ),
    {
        self.match_left_right_within(left, right, original_left, original_right, self.depth)
    }

    /// The printed form of a juxtaposition.
    pub fn display_joint(&self, left: &SyntaxTree, right: &SyntaxTree) -> (r: Result<
        String,
        ZiaError,
    >)
        ensures
            view_res_string(r) == sp_display_joint(
                self.g(),
                self.ids,
                left@,
                right@,
                self.budget(),
            ),
    {
        self.display_joint_within(left, right, self.depth)
    }

    /// The associativity of a tree, resolved through the rewriting
    /// relation.
    pub fn get_associativity(&self, ast: &SyntaxTree) -> (r: Result<
        Option<Associativity>,
        ZiaError,
    >)
        ensures
            r == sp_get_associativity(self.g(), self.ids, ast@, self.budget()),
    {
        self.get_associativity_within(ast, self.depth)
    }

    /// Whether `left` binds more tightly than `right`, resolved through
    /// the rewriting relation.
    pub fn has_higher_precedence(&self, left: &SyntaxTree, right: &SyntaxTree) -> (r: Result<
        Option<bool>,
        ZiaError,
    >)
        ensures
            r == sp_has_higher_precedence(self.g(), self.ids, left@, right@, self.budget()),
    {
        self.has_higher_precedence_within(left, right, self.depth)
    }

    /// Whether `left` rewrites to `right`, as far as the graph settles it.
    pub fn determine_reduction_truth(&self, left: &SyntaxTree, right: &SyntaxTree) -> (r: Result<
        Option<bool>,
        ZiaError,
    >)
        ensures
            r == sp_determine_reduction_truth(self.g(), self.ids, left@, right@, self.budget()),
    {
        self.determine_reduction_truth_within(left, right, self.depth)
    }

    /// Whether the rewriting chain out of `left` passes through `right`.
    pub fn determine_evidence_of_reduction(&self, left: &SyntaxTree, right: &SyntaxTree) -> (r:
        Result<Option<bool>, ZiaError>)
        ensures
            r == sp_determine_evidence_of_reduction(
                self.g(),
                self.ids,
                left@,
                right@,
                self.budget(),
            ),
    {
        self.determine_evidence_of_reduction_within(left, right, self.depth)
    }

    /// The six-valued comparison of two expressions through the
    /// designated greater-than relation.
    pub fn compare(&self, a: &SyntaxTree, b: &SyntaxTree) -> (r: Result<Comparison, ZiaError>)
        ensures
            r == sp_compare(self.g(), self.ids, a@, b@, self.budget()),
    {
        if self.depth == 0 {
            return Err(ZiaError::DepthLimitReached);
        }
        if a.structurally_equal(b) {
            return Ok(Comparison::EqualTo);
        }
        match self.greater_than_query_within(a, b, self.depth - 1) {
            Err(e) => Err(e),
            Ok(Some(true)) => Ok(Comparison::GreaterThan),
            Ok(Some(false)) => Ok(Comparison::LessThanOrEqualTo),
            Ok(None) => match self.greater_than_query_within(b, a, self.depth - 1) {
                Err(e) => Err(e),
                Ok(Some(true)) => Ok(Comparison::LessThan),
                Ok(Some(false)) => Ok(Comparison::GreaterThanOrEqualTo),
                Ok(None) => Ok(Comparison::Incomparable),
            },
        }
    }

    /// The syntax tree of a single symbol: a leaf carrying the symbol,
    /// bound to the concept the symbol labels where one exists.
    /// Tokenizing a compound expression is the surface parser's concern,
    /// not this engine's.
    pub fn ast_from_expression(&self, expression: &str) -> (r: Result<SyntaxTree, ZiaError>)
        ensures
            match r {
                Ok(t) => t@.pair is None && t@.text == expression@ && (match t@.concept {
                    Some(id) => map_get(self.g().labels, id) == Some(expression@),
                    None => forall|id: usize|
                        map_get(self.g().labels, id) != Some(expression@),
                }),
                Err(_) => false,
            },
    {
        let symbol_leaf = SyntaxTree::from_symbol(expression);
        match self.snapshot.concept_from_label(self.deltas, expression) {
            Some(id) => Ok(symbol_leaf.bind_concept(id)),
            None => Ok(symbol_leaf),
        }
    }
}

} // verus!
