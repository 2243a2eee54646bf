//! The reading and rewriting engine, specified. Every operation of the
//! engine is defined here as a specification function over the graph view,
//! and the executable engine is proved to return exactly what these
//! functions say.
//!
//! The rewriting relation need not terminate on arbitrary graphs (a cycle of
//! reductions never reaches a normal form), so every recursive operation
//! carries an explicit depth budget. A search that exhausts its budget stops
//! with a reported fault instead of running forever.

use vstd::prelude::*;
use crate::ast::{tree_eq, TreeV};
use crate::concepts::{text_of, view_opt_string};
use crate::deltas::Delta;
use crate::snapshot::{map_get, ConceptReader, DesignatedIds, GraphV, Snapshot};

verus! {

/// The graph a reader exposes under a chain of deltas.
pub open spec fn reader_graph_of<S: ConceptReader + ?Sized>(s: &S, ds: Seq<Delta>) -> GraphV {
    GraphV { concepts: s.concepts_v(ds), labels: s.labels_v(ds) }
}

/// A fault of the engine. Faults of the graph's own invariants (a missing
/// definition where one is owed, an ambiguous definition or label) end the
/// offending operation; an exhausted depth budget does the same. Nothing
/// here is a panic: every fault is a value handed back to the caller.
#[derive(Clone, Copy, PartialEq, Eq, Structural, Debug)]
pub enum ZiaError {
    /// Deleting a definition that does not exist.
    RedundantDefinitionRemoval,
    /// An unlabelled concept with no definition where a rendering is owed.
    MissingDefinition,
    /// More than one concept shares the same ordered operand pair.
    AmbiguousDefinition,
    /// More than one concept is labelled by the same chain of reductions.
    AmbiguousLabel,
    /// A concept id that the graph does not hold.
    UnknownConcept,
    /// A printable operator whose associativity cannot be resolved.
    UnresolvedAssociativity,
    /// The depth budget of the search ran out.
    DepthLimitReached,
}

/// Whether a pair is rendered with its operands bare or parenthesized.
#[derive(Clone, Copy, PartialEq, Eq, Structural, Debug)]
pub enum Associativity {
    Left,
    Right,
}

/// The six possible outcomes of comparing two expressions through the
/// rewriting relation.
#[derive(Clone, Copy, PartialEq, Eq, Structural, Debug)]
pub enum Comparison {
    GreaterThan,
    LessThan,
    EqualTo,
    GreaterThanOrEqualTo,
    LessThanOrEqualTo,
    Incomparable,
}

/// A leaf syntax tree.
pub open spec fn leaf(text: Seq<char>, concept: Option<usize>) -> TreeV {
    TreeV { text, concept, pair: None }
}

/// A pair syntax tree.
pub open spec fn pair_of(text: Seq<char>, concept: Option<usize>, l: TreeV, r: TreeV) -> TreeV {
    TreeV { text, concept, pair: Some((Box::new(l), Box::new(r))) }
}

/// The concept `c` of the graph, or the fault for a missing id.
pub open spec fn sp_read(g: GraphV, c: usize) -> Result<crate::concepts::ConceptV, ZiaError> {
    match map_get(g.concepts, c) {
        Some(v) => Ok(v),
        None => Err(ZiaError::UnknownConcept),
    }
}

/// Scans `rh` for members that compose the label relation with some
/// concept: none means no labelling candidate, exactly one is the
/// candidate, two is a broken uniqueness invariant. A member without a
/// definition is a corrupted reverse index and faults.
pub open spec fn sp_label_candidate(
    g: GraphV,
    ids: DesignatedIds,
    rh: Seq<usize>,
    found: Option<usize>,
) -> Result<Option<usize>, ZiaError>
    decreases rh.len(),
{
    if rh.len() == 0 {
        Ok(found)
    } else {
        match sp_read(g, rh.first()) {
            Err(e) => Err(e),
            Ok(cv) => match cv.definition {
                None => Err(ZiaError::MissingDefinition),
                Some((l, _)) => if l == ids.label_id {
                    match found {
                        None => sp_label_candidate(g, ids, rh.drop_first(), Some(rh.first())),
                        Some(_) => Err(ZiaError::AmbiguousDefinition),
                    }
                } else {
                    sp_label_candidate(g, ids, rh.drop_first(), found)
                },
            },
        }
    }
}

/// The unique concept that pairs the label relation with `c`, if any;
/// more than one candidate labelling the same concept is a fatal
/// ambiguity.
pub open spec fn sp_get_concept_of_label(g: GraphV, ids: DesignatedIds, c: usize) -> Result<
    Option<usize>,
    ZiaError,
> {
    match sp_read(g, c) {
        Err(e) => Err(e),
        Ok(cv) => sp_label_candidate(g, ids, cv.righthand_of, None),
    }
}

/// The end of the reduction chain starting at `c`: the concept `c`
/// ultimately rewrites to, or `None` where `c` does not rewrite at all.
pub open spec fn sp_get_normal_form(g: GraphV, c: usize, fuel: nat) -> Result<
    Option<usize>,
    ZiaError,
>
    decreases fuel,
{
    if fuel == 0 {
        Err(ZiaError::DepthLimitReached)
    } else {
        match sp_read(g, c) {
            Err(e) => Err(e),
            Ok(cv) => match cv.reduction {
                None => Ok(None),
                Some(n) => match sp_get_normal_form(g, n, (fuel - 1) as nat) {
                    Err(e) => Err(e),
                    Ok(None) => Ok(Some(n)),
                    Ok(Some(m)) => Ok(Some(m)),
                },
            },
        }
    }
}

/// The printable name of `c`: a label bound directly in the graph, else the
/// text of the concept that the label relation pairs with `c` (through its
/// normal form), else the name of whatever `c` reduces to.
pub open spec fn sp_get_label(g: GraphV, ids: DesignatedIds, c: usize, fuel: nat) -> Result<
    Option<Seq<char>>,
    ZiaError,
>
    decreases fuel,
{
    if fuel == 0 {
        Err(ZiaError::DepthLimitReached)
    } else {
        match map_get(g.labels, c) {
            Some(s) => Ok(Some(s)),
            None => match sp_get_concept_of_label(g, ids, c) {
                Err(e) => Err(e),
                Ok(Some(d)) => match sp_get_normal_form(g, d, (fuel - 1) as nat) {
                    Err(e) => Err(e),
                    Ok(None) => Ok(None),
                    Ok(Some(n)) => match sp_read(g, n) {
                        Err(e) => Err(e),
                        Ok(nv) => Ok(text_of(nv.specific)),
                    },
                },
                Ok(None) => match sp_read(g, c) {
                    Err(e) => Err(e),
                    Ok(cv) => match cv.reduction {
                        None => Ok(None),
                        Some(n) => sp_get_label(g, ids, n, (fuel - 1) as nat),
                    },
                },
            },
        }
    }
}

/// Scans the lefthand reverse index of one operand for members that the
/// righthand reverse index of the other also holds: none means no composite
/// exists, exactly one is the composite, two is a broken uniqueness
/// invariant.
pub open spec fn sp_definition_scan(
    lh: Seq<usize>,
    rh: Seq<usize>,
    found: Option<usize>,
) -> Result<Option<usize>, ZiaError>
    decreases lh.len(),
{
    if lh.len() == 0 {
        Ok(found)
    } else if rh.contains(lh.first()) {
        match found {
            None => sp_definition_scan(lh.drop_first(), rh, Some(lh.first())),
            Some(_) => Err(ZiaError::AmbiguousDefinition),
        }
    } else {
        sp_definition_scan(lh.drop_first(), rh, found)
    }
}

/// The unique concept defined as the composition of `l` and `r`, if any.
pub open spec fn sp_find_definition(g: GraphV, l: usize, r: usize) -> Result<
    Option<usize>,
    ZiaError,
> {
    match sp_read(g, l) {
        Err(e) => Err(e),
        Ok(lv) => match sp_read(g, r) {
            Err(e) => Err(e),
            Ok(rv) => sp_definition_scan(lv.lefthand_of, rv.righthand_of, None),
        },
    }
}

/// Whether `inner` is reachable from `outer` by unfolding definitions.
pub open spec fn sp_contains(g: GraphV, outer: usize, inner: usize, fuel: nat) -> Result<
    bool,
    ZiaError,
>
    decreases fuel,
{
    if fuel == 0 {
        Err(ZiaError::DepthLimitReached)
    } else {
        match sp_read(g, outer) {
            Err(e) => Err(e),
            Ok(cv) => match cv.definition {
                None => Ok(false),
                Some((l, r)) => if l == inner || r == inner {
                    Ok(true)
                } else {
                    match sp_contains(g, l, inner, (fuel - 1) as nat) {
                        Err(e) => Err(e),
                        Ok(true) => Ok(true),
                        Ok(false) => sp_contains(g, r, inner, (fuel - 1) as nat),
                    }
                },
            },
        }
    }
}

/// Whether every member of `rh` that still has a definition composes the
/// label relation — a label pairing alone does not count as a connection.
pub open spec fn sp_righthand_without_label_empty(
    g: GraphV,
    ids: DesignatedIds,
    rh: Seq<usize>,
) -> Result<bool, ZiaError>
    decreases rh.len(),
{
    if rh.len() == 0 {
        Ok(true)
    } else {
        match sp_read(g, rh.first()) {
            Err(e) => Err(e),
            Ok(cv) => match cv.definition {
                None => sp_righthand_without_label_empty(g, ids, rh.drop_first()),
                Some((l, _)) => if l != ids.label_id {
                    Ok(false)
                } else {
                    sp_righthand_without_label_empty(g, ids, rh.drop_first())
                },
            },
        }
    }
}

/// Whether the composition uses of `c` are label pairings alone.
pub open spec fn sp_righthand_of_without_label_is_empty(
    g: GraphV,
    ids: DesignatedIds,
    c: usize,
) -> Result<bool, ZiaError> {
    match sp_read(g, c) {
        Err(e) => Err(e),
        Ok(cv) => sp_righthand_without_label_empty(g, ids, cv.righthand_of),
    }
}

/// Whether `c` holds no reduction, no definition, no composition uses
/// beyond label pairings, and nothing reduces to it — the precondition for
/// safe removal.
pub open spec fn sp_is_disconnected(g: GraphV, ids: DesignatedIds, c: usize) -> Result<
    bool,
    ZiaError,
> {
    match sp_read(g, c) {
        Err(e) => Err(e),
        Ok(cv) => if cv.reduction is Some {
            Ok(false)
        } else if cv.definition is Some {
            Ok(false)
        } else if cv.lefthand_of.len() != 0 {
            Ok(false)
        } else {
            match sp_righthand_of_without_label_is_empty(g, ids, c) {
                Err(e) => Err(e),
                Ok(false) => Ok(false),
                Ok(true) => Ok(cv.reduces_from.len() == 0),
            }
        },
    }
}

/// The set of concepts that rewrite to `c`, directly or through further
/// reductions.
pub open spec fn sp_normal_form_of(g: GraphV, c: usize, fuel: nat) -> Result<Set<usize>, ZiaError>
    decreases fuel, 0nat,
{
    if fuel == 0 {
        Err(ZiaError::DepthLimitReached)
    } else {
        match sp_read(g, c) {
            Err(e) => Err(e),
            Ok(cv) => match sp_normal_form_of_many(g, cv.reduces_from, (fuel - 1) as nat) {
                Err(e) => Err(e),
                Ok(s) => Ok(cv.reduces_from.to_set().union(s)),
            },
        }
    }
}

/// The union of `sp_normal_form_of` over a run of concepts.
pub open spec fn sp_normal_form_of_many(g: GraphV, cs: Seq<usize>, fuel: nat) -> Result<
    Set<usize>,
    ZiaError,
>
    decreases fuel, cs.len() + 1,
{
    if cs.len() == 0 {
        Ok(Set::empty())
    } else if fuel == 0 {
        Err(ZiaError::DepthLimitReached)
    } else {
        match sp_normal_form_of(g, cs.first(), (fuel - 1) as nat) {
            Err(e) => Err(e),
            Ok(s1) => match sp_normal_form_of_many(g, cs.drop_first(), fuel) {
                Err(e) => Err(e),
                Ok(s2) => Ok(s1.union(s2)),
            },
        }
    }
}

/// The rendering of `c` for the reading paths: a leaf carrying its label
/// where it has one, else the combination of the renderings of its
/// definition's operands. An unlabelled concept with no definition cannot
/// be rendered here: that is a fault of the graph, since every concept a
/// caller asks to read is owed a name or a decomposition.
pub open spec fn sp_to_ast(g: GraphV, ids: DesignatedIds, c: usize, fuel: nat) -> Result<
    TreeV,
    ZiaError,
>
    decreases fuel,
{
    if fuel == 0 {
        Err(ZiaError::DepthLimitReached)
    } else {
        match sp_get_label(g, ids, c, (fuel - 1) as nat) {
            Err(e) => Err(e),
            Ok(Some(s)) => Ok(leaf(s, Some(c))),
            Ok(None) => match sp_read(g, c) {
                Err(e) => Err(e),
                Ok(cv) => match cv.definition {
                    None => Err(ZiaError::MissingDefinition),
                    Some((l, r)) => match sp_to_ast(g, ids, l, (fuel - 1) as nat) {
                        Err(e) => Err(e),
                        Ok(lt) => match sp_to_ast(g, ids, r, (fuel - 1) as nat) {
                            Err(e) => Err(e),
                            Ok(rt) => sp_combine(g, ids, lt, rt, (fuel - 1) as nat),
                        },
                    },
                },
            },
        }
    }
}

/// The rendering of `c` for the rewriting paths. The rewriting rules must
/// be able to name designated concepts (truth values, the right identity)
/// that may carry neither label nor definition, so this rendering falls
/// back to a bare concept-bound leaf instead of faulting.
pub open spec fn sp_concept_syntax(g: GraphV, ids: DesignatedIds, c: usize, fuel: nat) -> Result<
    TreeV,
    ZiaError,
>
    decreases fuel,
{
    if fuel == 0 {
        Err(ZiaError::DepthLimitReached)
    } else {
        match sp_get_label(g, ids, c, (fuel - 1) as nat) {
            Err(e) => Err(e),
            Ok(Some(s)) => Ok(leaf(s, Some(c))),
            Ok(None) => match sp_read(g, c) {
                Err(e) => Err(e),
                Ok(cv) => match cv.definition {
                    None => Ok(leaf(Seq::empty(), Some(c))),
                    Some((l, r)) => match sp_concept_syntax(g, ids, l, (fuel - 1) as nat) {
                        Err(e) => Err(e),
                        Ok(lt) => match sp_concept_syntax(g, ids, r, (fuel - 1) as nat) {
                            Err(e) => Err(e),
                            Ok(rt) => sp_combine(g, ids, lt, rt, (fuel - 1) as nat),
                        },
                    },
                },
            },
        }
    }
}

/// The unbound pair of `a` and `b`, displayed by `sp_display_joint`.
pub open spec fn sp_join(g: GraphV, ids: DesignatedIds, a: TreeV, b: TreeV, fuel: nat) -> Result<
    TreeV,
    ZiaError,
>
    decreases fuel,
{
    if fuel == 0 {
        Err(ZiaError::DepthLimitReached)
    } else {
        match sp_display_joint(g, ids, a, b, (fuel - 1) as nat) {
            Err(e) => Err(e),
            Ok(s) => Ok(pair_of(s, None, a, b)),
        }
    }
}

/// The pair of `a` and `b`, bound to the composite concept of their bound
/// concepts where exactly one exists.
pub open spec fn sp_combine(g: GraphV, ids: DesignatedIds, a: TreeV, b: TreeV, fuel: nat) -> Result<
    TreeV,
    ZiaError,
>
    decreases fuel,
{
    if fuel == 0 {
        Err(ZiaError::DepthLimitReached)
    } else {
        match (a.concept, b.concept) {
            (Some(l), Some(r)) => match sp_find_definition(g, l, r) {
                Err(e) => Err(e),
                Ok(Some(def)) => match sp_join(g, ids, a, b, (fuel - 1) as nat) {
                    Err(e) => Err(e),
                    Ok(t) => Ok(TreeV { concept: Some(def), ..t }),
                },
                Ok(None) => sp_join(g, ids, a, b, (fuel - 1) as nat),
            },
            _ => sp_join(g, ids, a, b, (fuel - 1) as nat),
        }
    }
}

/// The printed form of a juxtaposition. A side that is itself a pair is
/// parenthesized or not according to the associativity of its inner
/// operand, matching conventional infix printing; a side whose
/// associativity cannot be resolved is a fault of the printing path.
pub open spec fn sp_display_joint(
    g: GraphV,
    ids: DesignatedIds,
    l: TreeV,
    r: TreeV,
    fuel: nat,
) -> Result<Seq<char>, ZiaError>
    decreases fuel,
{
    if fuel == 0 {
        Err(ZiaError::DepthLimitReached)
    } else {
        let ls = match l.pair {
            Some(p) => match sp_get_associativity(g, ids, *p.1, (fuel - 1) as nat) {
                Err(e) => Err(e),
                Ok(Some(Associativity::Left)) => Ok((*p.0).text + " "@ + (*p.1).text),
                Ok(Some(Associativity::Right)) => Ok(
                    "("@ + (*p.0).text + " "@ + (*p.1).text + ")"@,
                ),
                Ok(None) => Err(ZiaError::UnresolvedAssociativity),
            },
            None => Ok(l.text),
        };
        match ls {
            Err(e) => Err(e),
            Ok(lstr) => {
                let rs = match r.pair {
                    Some(q) => match sp_get_associativity(g, ids, *q.0, (fuel - 1) as nat) {
                        Err(e) => Err(e),
                        Ok(Some(Associativity::Left)) => Ok(
                            "("@ + (*q.0).text + " "@ + (*q.1).text + ")"@,
                        ),
                        Ok(Some(Associativity::Right)) => Ok((*q.0).text + " "@ + (*q.1).text),
                        Ok(None) => Err(ZiaError::UnresolvedAssociativity),
                    },
                    None => Ok(r.text),
                };
                match rs {
                    Err(e) => Err(e),
                    Ok(rstr) => Ok(lstr + " "@ + rstr),
                }
            },
        }
    }
}

/// The associativity of `t`: the reduction of the associativity concept
/// combined with `t`, read off the bound concept of the result.
pub open spec fn sp_get_associativity(g: GraphV, ids: DesignatedIds, t: TreeV, fuel: nat) -> Result<
    Option<Associativity>,
    ZiaError,
>
    decreases fuel,
{
    if fuel == 0 {
        Err(ZiaError::DepthLimitReached)
    } else {
        match sp_concept_syntax(g, ids, ids.assoc_id, (fuel - 1) as nat) {
            Err(e) => Err(e),
            Ok(assoc_ast) => match sp_combine(g, ids, assoc_ast, t, (fuel - 1) as nat) {
                Err(e) => Err(e),
                Ok(q) => match sp_reduce(g, ids, q, (fuel - 1) as nat) {
                    Err(e) => Err(e),
                    Ok(None) => Ok(None),
                    Ok(Some(res)) => if res.concept == Some(ids.left_id) {
                        Ok(Some(Associativity::Left))
                    } else if res.concept == Some(ids.right_id) {
                        Ok(Some(Associativity::Right))
                    } else {
                        Ok(None)
                    },
                },
            },
        }
    }
}

/// Whether `l` binds more tightly than `r`: the reduction of "`l` applied
/// to (precedence of `r`)", read off as a truth value; `None` where the
/// graph does not settle it.
pub open spec fn sp_has_higher_precedence(
    g: GraphV,
    ids: DesignatedIds,
    l: TreeV,
    r: TreeV,
    fuel: nat,
) -> Result<Option<bool>, ZiaError>
    decreases fuel,
{
    if fuel == 0 {
        Err(ZiaError::DepthLimitReached)
    } else {
        match sp_concept_syntax(g, ids, ids.precedence_id, (fuel - 1) as nat) {
            Err(e) => Err(e),
            Ok(prec_ast) => match sp_combine(g, ids, prec_ast, r, (fuel - 1) as nat) {
                Err(e) => Err(e),
                Ok(inner) => match sp_combine(g, ids, l, inner, (fuel - 1) as nat) {
                    Err(e) => Err(e),
                    Ok(q) => match sp_reduce(g, ids, q, (fuel - 1) as nat) {
                        Err(e) => Err(e),
                        Ok(None) => Ok(None),
                        Ok(Some(res)) => if res.concept == Some(ids.true_id) {
                            Ok(Some(true))
                        } else if res.concept == Some(ids.false_id) {
                            Ok(Some(false))
                        } else {
                            Ok(None)
                        },
                    },
                },
            },
        }
    }
}

/// One rewriting step of a tree. A bound tree steps by its concept. An
/// unbound pair steps by the associativity shortcut, else by a
/// reduction-assertion on its right operand, else by rewriting its
/// children. `None` means the tree is a normal form at this node.
pub open spec fn sp_reduce(g: GraphV, ids: DesignatedIds, t: TreeV, fuel: nat) -> Result<
    Option<TreeV>,
    ZiaError,
>
    decreases fuel,
{
    if fuel == 0 {
        Err(ZiaError::DepthLimitReached)
    } else {
        match t.concept {
            Some(c) => sp_reduce_concept(g, ids, c, (fuel - 1) as nat),
            None => match t.pair {
                None => Ok(None),
                Some(p) => {
                    let l = *p.0;
                    let r = *p.1;
                    if l.concept == Some(ids.assoc_id) {
                        match sp_concept_syntax(g, ids, ids.right_id, (fuel - 1) as nat) {
                            Err(e) => Err(e),
                            Ok(t2) => Ok(Some(t2)),
                        }
                    } else {
                        match r.pair {
                            Some(q) => if (*q.0).concept == Some(ids.reduction_id) {
                                match sp_determine_reduction_truth(
                                    g,
                                    ids,
                                    l,
                                    *q.1,
                                    (fuel - 1) as nat,
                                ) {
                                    Err(e) => Err(e),
                                    Ok(Some(true)) => match sp_concept_syntax(
                                        g,
                                        ids,
                                        ids.true_id,
                                        (fuel - 1) as nat,
                                    ) {
                                        Err(e) => Err(e),
                                        Ok(t2) => Ok(Some(t2)),
                                    },
                                    Ok(Some(false)) => match sp_concept_syntax(
                                        g,
                                        ids,
                                        ids.false_id,
                                        (fuel - 1) as nat,
                                    ) {
                                        Err(e) => Err(e),
                                        Ok(t2) => Ok(Some(t2)),
                                    },
                                    Ok(None) => sp_reduce_pair(g, ids, l, r, (fuel - 1) as nat),
                                }
                            } else {
                                sp_reduce_pair(g, ids, l, r, (fuel - 1) as nat)
                            },
                            None => sp_reduce_pair(g, ids, l, r, (fuel - 1) as nat),
                        }
                    }
                },
            },
        }
    }
}

/// The structural rewriting of a pair: rewrite both children and fold
/// whichever changed back together with whichever did not.
pub open spec fn sp_reduce_pair(g: GraphV, ids: DesignatedIds, l: TreeV, r: TreeV, fuel: nat) -> Result<
    Option<TreeV>,
    ZiaError,
>
    decreases fuel,
{
    if fuel == 0 {
        Err(ZiaError::DepthLimitReached)
    } else {
        match sp_reduce(g, ids, l, (fuel - 1) as nat) {
            Err(e) => Err(e),
            Ok(lred) => match sp_reduce(g, ids, r, (fuel - 1) as nat) {
                Err(e) => Err(e),
                Ok(rred) => sp_match_left_right(g, ids, lred, rred, l, r, (fuel - 1) as nat),
            },
        }
    }
}

/// One rewriting step of a concept: its explicit reduction where it has
/// one, else the rewriting of its definition's operands; a concept with
/// neither is already a normal form.
pub open spec fn sp_reduce_concept(g: GraphV, ids: DesignatedIds, c: usize, fuel: nat) -> Result<
    Option<TreeV>,
    ZiaError,
>
    decreases fuel,
{
    if fuel == 0 {
        Err(ZiaError::DepthLimitReached)
    } else {
        match sp_read(g, c) {
            Err(e) => Err(e),
            Ok(cv) => match cv.reduction {
                Some(n) => match sp_concept_syntax(g, ids, n, (fuel - 1) as nat) {
                    Err(e) => Err(e),
                    Ok(t) => Ok(Some(t)),
                },
                None => match cv.definition {
                    None => Ok(None),
                    Some((l, r)) => match sp_reduce_concept(g, ids, l, (fuel - 1) as nat) {
                        Err(e) => Err(e),
                        Ok(lred) => match sp_reduce_concept(g, ids, r, (fuel - 1) as nat) {
                            Err(e) => Err(e),
                            Ok(rred) => match sp_concept_syntax(g, ids, l, (fuel - 1) as nat) {
                                Err(e) => Err(e),
                                Ok(lt) => match sp_concept_syntax(g, ids, r, (fuel - 1) as nat) {
                                    Err(e) => Err(e),
                                    Ok(rt) => sp_match_left_right(
                                        g,
                                        ids,
                                        lred,
                                        rred,
                                        lt,
                                        rt,
                                        (fuel - 1) as nat,
                                    ),
                                },
                            },
                        },
                    },
                },
            },
        }
    }
}

/// Folds rewritten children back into a pair: `None` only where neither
/// side changed.
pub open spec fn sp_match_left_right(
    g: GraphV,
    ids: DesignatedIds,
    l: Option<TreeV>,
    r: Option<TreeV>,
    original_l: TreeV,
    original_r: TreeV,
    fuel: nat,
) -> Result<Option<TreeV>, ZiaError>
    decreases fuel,
{
    if fuel == 0 {
        Err(ZiaError::DepthLimitReached)
    } else {
        match (l, r) {
            (None, None) => Ok(None),
            (Some(nl), None) => match sp_contract_pair(g, ids, nl, original_r, (fuel - 1) as nat) {
                Err(e) => Err(e),
                Ok(t) => Ok(Some(t)),
            },
            (None, Some(nr)) => match sp_contract_pair(g, ids, original_l, nr, (fuel - 1) as nat) {
                Err(e) => Err(e),
                Ok(t) => Ok(Some(t)),
            },
            (Some(nl), Some(nr)) => match sp_contract_pair(g, ids, nl, nr, (fuel - 1) as nat) {
                Err(e) => Err(e),
                Ok(t) => Ok(Some(t)),
            },
        }
    }
}

/// The pair of two already-rewritten trees, bound to their composite
/// concept whenever exactly one exists. The composite's label, where it
/// has one, supplies the display text; the plain juxtaposition is only
/// the fallback text.
pub open spec fn sp_contract_pair(g: GraphV, ids: DesignatedIds, l: TreeV, r: TreeV, fuel: nat) -> Result<
    TreeV,
    ZiaError,
>
    decreases fuel,
{
    if fuel == 0 {
        Err(ZiaError::DepthLimitReached)
    } else {
        match (l.concept, r.concept) {
            (Some(lc), Some(rc)) => match sp_find_definition(g, lc, rc) {
                Err(e) => Err(e),
                Ok(Some(def)) => match sp_get_label(g, ids, def, (fuel - 1) as nat) {
                    Err(e) => Err(e),
                    Ok(Some(s)) => Ok(pair_of(s, Some(def), l, r)),
                    Ok(None) => match sp_join(g, ids, l, r, (fuel - 1) as nat) {
                        Err(e) => Err(e),
                        Ok(t) => Ok(TreeV { concept: Some(def), ..t }),
                    },
                },
                Ok(None) => sp_join(g, ids, l, r, (fuel - 1) as nat),
            },
            _ => sp_join(g, ids, l, r, (fuel - 1) as nat),
        }
    }
}

/// Whether `l` rewrites to `r`: `false` for a tree and itself, else direct
/// evidence for one direction, else the negation of evidence for the
/// mirrored direction, else unsettled.
pub open spec fn sp_determine_reduction_truth(
    g: GraphV,
    ids: DesignatedIds,
    l: TreeV,
    r: TreeV,
    fuel: nat,
) -> Result<Option<bool>, ZiaError>
    decreases fuel,
{
    if fuel == 0 {
        Err(ZiaError::DepthLimitReached)
    } else if tree_eq(l, r) {
        Ok(Some(false))
    } else {
        match sp_determine_evidence_of_reduction(g, ids, l, r, (fuel - 1) as nat) {
            Err(e) => Err(e),
            Ok(Some(x)) => Ok(Some(x)),
            Ok(None) => match sp_determine_evidence_of_reduction(g, ids, r, l, (fuel - 1) as nat) {
                Err(e) => Err(e),
                Ok(Some(x)) => Ok(Some(!x)),
                Ok(None) => Ok(None),
            },
        }
    }
}

/// Whether the rewriting chain out of `l` passes through `r`.
pub open spec fn sp_determine_evidence_of_reduction(
    g: GraphV,
    ids: DesignatedIds,
    l: TreeV,
    r: TreeV,
    fuel: nat,
) -> Result<Option<bool>, ZiaError>
    decreases fuel,
{
    if fuel == 0 {
        Err(ZiaError::DepthLimitReached)
    } else {
        match sp_reduce(g, ids, l, (fuel - 1) as nat) {
            Err(e) => Err(e),
            Ok(None) => Ok(None),
            Ok(Some(lred)) => if tree_eq(lred, r) {
                Ok(Some(true))
            } else {
                sp_determine_evidence_of_reduction(g, ids, lred, r, (fuel - 1) as nat)
            },
        }
    }
}

/// Unfolds a tree outward-in, substituting every bound concept by its
/// structural decomposition, so that the result is made of atomic or
/// labelled leaves alone.
pub open spec fn sp_expand(g: GraphV, ids: DesignatedIds, t: TreeV, fuel: nat) -> Result<
    TreeV,
    ZiaError,
>
    decreases fuel,
{
    if fuel == 0 {
        Err(ZiaError::DepthLimitReached)
    } else {
        match t.concept {
            Some(c) => match sp_read(g, c) {
                Err(e) => Err(e),
                Ok(cv) => match cv.definition {
                    Some((l, r)) => match sp_to_ast(g, ids, l, (fuel - 1) as nat) {
                        Err(e) => Err(e),
                        Ok(lt) => match sp_expand(g, ids, lt, (fuel - 1) as nat) {
                            Err(e) => Err(e),
                            Ok(le) => match sp_to_ast(g, ids, r, (fuel - 1) as nat) {
                                Err(e) => Err(e),
                                Ok(rt) => match sp_expand(g, ids, rt, (fuel - 1) as nat) {
                                    Err(e) => Err(e),
                                    Ok(re) => sp_combine(g, ids, le, re, (fuel - 1) as nat),
                                },
                            },
                        },
                    },
                    None => sp_to_ast(g, ids, c, (fuel - 1) as nat),
                },
            },
            None => match t.pair {
                Some(p) => match sp_expand(g, ids, *p.0, (fuel - 1) as nat) {
                    Err(e) => Err(e),
                    Ok(le) => match sp_expand(g, ids, *p.1, (fuel - 1) as nat) {
                        Err(e) => Err(e),
                        Ok(re) => sp_combine(g, ids, le, re, (fuel - 1) as nat),
                    },
                },
                None => Ok(t),
            },
        }
    }
}

/// Rewrites a tree to its fixed point: the normal form that no further
/// step changes.
pub open spec fn sp_recursively_reduce(g: GraphV, ids: DesignatedIds, t: TreeV, fuel: nat) -> Result<
    TreeV,
    ZiaError,
>
    decreases fuel,
{
    if fuel == 0 {
        Err(ZiaError::DepthLimitReached)
    } else {
        match sp_reduce(g, ids, t, (fuel - 1) as nat) {
            Err(e) => Err(e),
            Ok(Some(next)) => sp_recursively_reduce(g, ids, next, (fuel - 1) as nat),
            Ok(None) => Ok(t),
        }
    }
}

/// The full rewriting of the expression "`a` is greater than `b`", read
/// off as a truth value; `None` where the graph does not settle it.
pub open spec fn sp_greater_than_query(
    g: GraphV,
    ids: DesignatedIds,
    a: TreeV,
    b: TreeV,
    fuel: nat,
) -> Result<Option<bool>, ZiaError>
    decreases fuel,
{
    if fuel == 0 {
        Err(ZiaError::DepthLimitReached)
    } else {
        match sp_concept_syntax(g, ids, ids.greater_than_id, (fuel - 1) as nat) {
            Err(e) => Err(e),
            Ok(gt) => match sp_combine(g, ids, gt, b, (fuel - 1) as nat) {
                Err(e) => Err(e),
                Ok(inner) => match sp_combine(g, ids, a, inner, (fuel - 1) as nat) {
                    Err(e) => Err(e),
                    Ok(q) => match sp_recursively_reduce(g, ids, q, (fuel - 1) as nat) {
                        Err(e) => Err(e),
                        Ok(res) => if res.concept == Some(ids.true_id) {
                            Ok(Some(true))
                        } else if res.concept == Some(ids.false_id) {
                            Ok(Some(false))
                        } else {
                            Ok(None)
                        },
                    },
                },
            },
        }
    }
}

/// The six-valued comparison of two expressions. Structural equality is
/// `EqualTo`; a direct greater-than fact decides strictly or licenses the
/// non-strict complementary bound; else the mirrored query decides,
/// inverted; else the two are incomparable. Both queries run on the same
/// depth budget.
pub open spec fn sp_compare(g: GraphV, ids: DesignatedIds, a: TreeV, b: TreeV, fuel: nat) -> Result<
    Comparison,
    ZiaError,
>
    decreases fuel,
{
    if fuel == 0 {
        Err(ZiaError::DepthLimitReached)
    } else if tree_eq(a, b) {
        Ok(Comparison::EqualTo)
    } else {
        match sp_greater_than_query(g, ids, a, b, (fuel - 1) as nat) {
            Err(e) => Err(e),
            Ok(Some(true)) => Ok(Comparison::GreaterThan),
            Ok(Some(false)) => Ok(Comparison::LessThanOrEqualTo),
            Ok(None) => match sp_greater_than_query(g, ids, b, a, (fuel - 1) as nat) {
                Err(e) => Err(e),
                Ok(Some(true)) => Ok(Comparison::LessThan),
                Ok(Some(false)) => Ok(Comparison::GreaterThanOrEqualTo),
                Ok(None) => Ok(Comparison::Incomparable),
            },
        }
    }
}

/// View of an optional label result.
pub open spec fn view_res_opt_string(r: Result<Option<String>, ZiaError>) -> Result<
    Option<Seq<char>>,
    ZiaError,
> {
    match r {
        Ok(o) => Ok(view_opt_string(o)),
        Err(e) => Err(e),
    }
}

/// Whether `v` holds `x`.
pub(crate) fn contains_id(v: &Vec<usize>, x: usize) -> (r: bool)
    ensures
        r == v@.contains(x),
{
    let mut i: usize = 0;
    while i < v.len()
        invariant
            i <= v.len(),
            forall|k: int| 0 <= k < i ==> v@[k] != x,
        decreases v.len() - i,
    {
        if v[i] == x {
            return true;
        }
        i = i + 1;
    }
    false
}

/// Pushes `x` unless `v` already holds it, keeping `v` free of duplicates.
pub(crate) fn push_unique(v: &mut Vec<usize>, x: usize)
    requires
        old(v)@.no_duplicates(),
    ensures
        final(v)@.to_set() == old(v)@.to_set().insert(x),
        final(v)@.no_duplicates(),
{
    broadcast use vstd::seq_lib::group_seq_properties;

    if !contains_id(v, x) {
        let ghost prior = v@;
        v.push(x);
        proof {
            assert(v@.drop_last() =~= prior);
            assert(v@.to_set() =~= prior.to_set().insert(x));
        }
    } else {
        proof {
            assert(v@.to_set() =~= v@.to_set().insert(x));
        }
    }
}

/// Chasing the reduction chain of a concept to its end.
pub trait GetNormalForm: ConceptReader {
    /// The concept that `concept` ultimately rewrites to, if it rewrites at
    /// all, searching no deeper than `fuel` links.
    fn get_normal_form(&self, deltas: &Vec<Delta>, concept: usize, fuel: usize) -> (r: Result<
        Option<usize>,
        ZiaError,
    >)
        ensures
            r == sp_get_normal_form(reader_graph_of(self, deltas@), concept, fuel as nat),
    ;
}

impl GetNormalForm for Snapshot {
    fn get_normal_form(&self, deltas: &Vec<Delta>, concept: usize, fuel: usize) -> (r: Result<
        Option<usize>,
        ZiaError,
    >)
        decreases fuel,
    {
        if fuel == 0 {
            return Err(ZiaError::DepthLimitReached);
        }
        match self.read_concept(deltas, concept) {
            None => Err(ZiaError::UnknownConcept),
            Some(c) => match c.get_reduction() {
                None => Ok(None),
                Some(n) => match self.get_normal_form(deltas, n, fuel - 1) {
                    Err(e) => Err(e),
                    Ok(None) => Ok(Some(n)),
                    Ok(Some(m)) => Ok(Some(m)),
                },
            },
        }
    }
}

/// Finding the concept that pairs the label relation with a concept.
pub trait GetConceptOfLabel: ConceptReader {
    /// The unique concept whose definition composes the label relation
    /// with `concept`: none where no candidate exists, the fault for a
    /// broken uniqueness invariant where more than one does.
    fn get_concept_of_label(
        &self,
        deltas: &Vec<Delta>,
        ids: &DesignatedIds,
        concept: usize,
    ) -> (r: Result<Option<usize>, ZiaError>)
        ensures
            r == sp_get_concept_of_label(reader_graph_of(self, deltas@), *ids, concept),
    ;
}

impl GetConceptOfLabel for Snapshot {
    fn get_concept_of_label(
        &self,
        deltas: &Vec<Delta>,
        ids: &DesignatedIds,
        concept: usize,
    ) -> (r: Result<Option<usize>, ZiaError>) {
        let ghost g = reader_graph_of(self, deltas@);
        let c = match self.read_concept(deltas, concept) {
            Some(c) => c,
            None => {
                return Err(ZiaError::UnknownConcept);
            },
        };
        let rh = c.get_righthand_of();
        let ghost rhs = rh@;
        let mut found: Option<usize> = None;
        let mut i: usize = 0;
        proof {
            assert(rhs.skip(0) =~= rhs);
        }
        while i < rh.len()
            invariant
                i <= rh.len(),
                rhs == rh@,
                rhs.len() == rh.len(),
                g == reader_graph_of(self, deltas@),
                sp_get_concept_of_label(g, *ids, concept) == sp_label_candidate(
                    g,
                    *ids,
                    rhs.skip(i as int),
                    found,
                ),
            decreases rh.len() - i,
        {
            proof {
                assert(rhs.skip(i as int).first() == rhs[i as int]);
                assert(rhs.skip(i as int).drop_first() =~= rhs.skip(i + 1));
            }
            match self.read_concept(deltas, rh[i]) {
                None => {
                    return Err(ZiaError::UnknownConcept);
                },
                Some(m) => match m.get_definition() {
                    None => {
                        return Err(ZiaError::MissingDefinition);
                    },
                    Some((l, _)) => {
                        if l == ids.label_id {
                            match found {
                                None => {
                                    found = Some(rh[i]);
                                },
                                Some(_) => {
                                    return Err(ZiaError::AmbiguousDefinition);
                                },
                            }
                        }
                    },
                },
            }
            i = i + 1;
        }
        Ok(found)
    }
}

/// Resolving the printable name of a concept.
pub trait GetLabel: GetNormalForm + GetConceptOfLabel {
    /// The label of `concept`: one bound directly, else one reached through
    /// the label relation and the normal form of its pairing, else the
    /// label of whatever `concept` reduces to.
    fn get_label(
        &self,
        deltas: &Vec<Delta>,
        ids: &DesignatedIds,
        concept: usize,
        fuel: usize,
    ) -> (r: Result<Option<String>, ZiaError>)
        ensures
            view_res_opt_string(r) == sp_get_label(
                reader_graph_of(self, deltas@),
                *ids,
                concept,
                fuel as nat,
            ),
    ;
}

impl GetLabel for Snapshot {
    fn get_label(
        &self,
        deltas: &Vec<Delta>,
        ids: &DesignatedIds,
        concept: usize,
        fuel: usize,
    ) -> (r: Result<Option<String>, ZiaError>)
        decreases fuel,
    {
        if fuel == 0 {
            return Err(ZiaError::DepthLimitReached);
        }
        proof {
            assert(reader_graph_of(self, deltas@).labels == self.graph(deltas@).labels);
        }
        match self.stored_label(deltas, concept) {
            Some(s) => Ok(Some(s)),
            None => match self.get_concept_of_label(deltas, ids, concept) {
                Err(e) => Err(e),
                Ok(Some(d)) => match self.get_normal_form(deltas, d, fuel - 1) {
                    Err(e) => Err(e),
                    Ok(None) => Ok(None),
                    Ok(Some(n)) => match self.read_concept(deltas, n) {
                        None => Err(ZiaError::UnknownConcept),
                        Some(nc) => Ok(nc.get_string()),
                    },
                },
                Ok(None) => match self.read_concept(deltas, concept) {
                    None => Err(ZiaError::UnknownConcept),
                    Some(c) => match c.get_reduction() {
                        None => Ok(None),
                        Some(n) => self.get_label(deltas, ids, n, fuel - 1),
                    },
                },
            },
        }
    }
}

/// Finding the unique composite of an ordered operand pair.
pub trait FindDefinition: ConceptReader {
    /// The concept defined as the composition of `lefthand` and
    /// `righthand`: none where no such composite exists, the composite
    /// where exactly one does, and the fault for a broken uniqueness
    /// invariant where more than one does.
    fn find_definition(&self, deltas: &Vec<Delta>, lefthand: usize, righthand: usize) -> (r:
        Result<Option<usize>, ZiaError>)
        ensures
            r == sp_find_definition(reader_graph_of(self, deltas@), lefthand, righthand),
    ;
}

impl FindDefinition for Snapshot {
    fn find_definition(&self, deltas: &Vec<Delta>, lefthand: usize, righthand: usize) -> (r:
        Result<Option<usize>, ZiaError>) {
        let ghost g = reader_graph_of(self, deltas@);
        let lc = match self.read_concept(deltas, lefthand) {
            Some(c) => c,
            None => {
                return Err(ZiaError::UnknownConcept);
            },
        };
        let rc = match self.read_concept(deltas, righthand) {
            Some(c) => c,
            None => {
                return Err(ZiaError::UnknownConcept);
            },
        };
        let lh = lc.get_lefthand_of();
        let rh = rc.get_righthand_of();
        let ghost lhs = lh@;
        let ghost rhs = rh@;
        let mut found: Option<usize> = None;
        let mut i: usize = 0;
        proof {
            assert(lhs.skip(0) =~= lhs);
        }
        while i < lh.len()
            invariant
                i <= lh.len(),
                lhs == lh@,
                rhs == rh@,
                lhs.len() == lh.len(),
                g == reader_graph_of(self, deltas@),
                sp_find_definition(g, lefthand, righthand) == sp_definition_scan(
                    lhs.skip(i as int),
                    rhs,
                    found,
                ),
            decreases lh.len() - i,
        {
            proof {
                assert(lhs.skip(i as int).first() == lhs[i as int]);
                assert(lhs.skip(i as int).drop_first() =~= lhs.skip(i + 1));
            }
            if contains_id(rh, lh[i]) {
                match found {
                    None => {
                        found = Some(lh[i]);
                    },
                    Some(_) => {
                        return Err(ZiaError::AmbiguousDefinition);
                    },
                }
            }
            i = i + 1;
        }
        Ok(found)
    }
}

/// Reachability along definition edges.
pub trait Container: ConceptReader {
    /// Whether `inner` is reachable from `outer` by repeatedly unfolding
    /// definitions, searching no deeper than `fuel` unfoldings.
    fn contains(&self, deltas: &Vec<Delta>, outer: usize, inner: usize, fuel: usize) -> (r: Result<
        bool,
        ZiaError,
    >)
        ensures
            r == sp_contains(reader_graph_of(self, deltas@), outer, inner, fuel as nat),
    ;
}

impl Container for Snapshot {
    fn contains(&self, deltas: &Vec<Delta>, outer: usize, inner: usize, fuel: usize) -> (r: Result<
        bool,
        ZiaError,
    >)
        decreases fuel,
    {
        if fuel == 0 {
            return Err(ZiaError::DepthLimitReached);
        }
        match self.read_concept(deltas, outer) {
            None => Err(ZiaError::UnknownConcept),
            Some(c) => match c.get_definition() {
                None => Ok(false),
                Some((l, r)) => if l == inner || r == inner {
                    Ok(true)
                } else {
                    match self.contains(deltas, l, inner, fuel - 1) {
                        Err(e) => Err(e),
                        Ok(true) => Ok(true),
                        Ok(false) => self.contains(deltas, r, inner, fuel - 1),
                    }
                },
            },
        }
    }
}

/// Testing whether a concept is free of every connection that would make
/// its removal unsafe.
pub trait MaybeDisconnected: ConceptReader {
    /// Whether `concept` holds no reduction, no definition, no composition
    /// uses beyond label pairings, and nothing reduces to it.
    fn is_disconnected(&self, deltas: &Vec<Delta>, ids: &DesignatedIds, concept: usize) -> (r:
        Result<bool, ZiaError>)
        ensures
            r == sp_is_disconnected(reader_graph_of(self, deltas@), *ids, concept),
    ;

    /// Whether every composition that uses `concept` as right operand
    /// composes the label relation.
    fn righthand_of_without_label_is_empty(
        &self,
        deltas: &Vec<Delta>,
        ids: &DesignatedIds,
        concept: usize,
    ) -> (r: Result<bool, ZiaError>)
        ensures
            r == sp_righthand_of_without_label_is_empty(
                reader_graph_of(self, deltas@),
                *ids,
                concept,
            ),
    ;
}

impl MaybeDisconnected for Snapshot {
    fn is_disconnected(&self, deltas: &Vec<Delta>, ids: &DesignatedIds, concept: usize) -> (r:
        Result<bool, ZiaError>) {
        let c = match self.read_concept(deltas, concept) {
            Some(c) => c,
            None => {
                return Err(ZiaError::UnknownConcept);
            },
        };
        if c.get_reduction().is_some() {
            return Ok(false);
        }
        if c.get_definition().is_some() {
            return Ok(false);
        }
        if c.get_lefthand_of().len() != 0 {
            return Ok(false);
        }
        match self.righthand_of_without_label_is_empty(deltas, ids, concept) {
            Err(e) => Err(e),
            Ok(false) => Ok(false),
            Ok(true) => Ok(c.find_what_reduces_to_it().len() == 0),
        }
    }

    fn righthand_of_without_label_is_empty(
        &self,
        deltas: &Vec<Delta>,
        ids: &DesignatedIds,
        concept: usize,
    ) -> (r: Result<bool, ZiaError>) {
        let ghost g = reader_graph_of(self, deltas@);
        let c = match self.read_concept(deltas, concept) {
            Some(c) => c,
            None => {
                return Err(ZiaError::UnknownConcept);
            },
        };
        let rh = c.get_righthand_of();
        let ghost rhs = rh@;
        let mut i: usize = 0;
        proof {
            assert(rhs.skip(0) =~= rhs);
        }
        while i < rh.len()
            invariant
                i <= rh.len(),
                rhs == rh@,
                rhs.len() == rh.len(),
                g == reader_graph_of(self, deltas@),
                sp_righthand_of_without_label_is_empty(g, *ids, concept)
                    == sp_righthand_without_label_empty(g, *ids, rhs.skip(i as int)),
            decreases rh.len() - i,
        {
            proof {
                assert(rhs.skip(i as int).first() == rhs[i as int]);
                assert(rhs.skip(i as int).drop_first() =~= rhs.skip(i + 1));
            }
            match self.read_concept(deltas, rh[i]) {
                None => {
                    return Err(ZiaError::UnknownConcept);
                },
                Some(m) => match m.get_definition() {
                    None => (),
                    Some((l, _)) => {
                        if l != ids.label_id {
                            return Ok(false);
                        }
                    },
                },
            }
            i = i + 1;
        }
        Ok(true)
    }
}

/// Collecting everything that rewrites to a concept.
pub trait FindWhatItsANormalFormOf: ConceptReader {
    /// The concepts that rewrite to `concept`, directly or through further
    /// reductions, each listed once.
    fn find_what_its_a_normal_form_of(&self, deltas: &Vec<Delta>, concept: usize, fuel: usize) -> (
        r: Result<Vec<usize>, ZiaError>)
        ensures
            match r {
                Ok(v) => sp_normal_form_of(reader_graph_of(self, deltas@), concept, fuel as nat)
                    == Ok::<Set<usize>, ZiaError>(v@.to_set()) && v@.no_duplicates(),
                Err(e) => sp_normal_form_of(reader_graph_of(self, deltas@), concept, fuel as nat)
                    == Err::<Set<usize>, ZiaError>(e),
            },
    ;
}

impl FindWhatItsANormalFormOf for Snapshot {
    fn find_what_its_a_normal_form_of(&self, deltas: &Vec<Delta>, concept: usize, fuel: usize) -> (
        r: Result<Vec<usize>, ZiaError>) {
        normal_form_of(self, deltas, concept, fuel)
    }
}

/// The members of `sp_normal_form_of`, each listed once.
fn normal_form_of(s: &Snapshot, deltas: &Vec<Delta>, concept: usize, fuel: usize) -> (r: Result<
    Vec<usize>,
    ZiaError,
>)
    ensures
        match r {
            Ok(v) => sp_normal_form_of(reader_graph_of(s, deltas@), concept, fuel as nat) == Ok::<
                Set<usize>,
                ZiaError,
            >(v@.to_set()) && v@.no_duplicates(),
            Err(e) => sp_normal_form_of(reader_graph_of(s, deltas@), concept, fuel as nat) == Err::<
                Set<usize>,
                ZiaError,
            >(e),
        },
    decreases fuel, 0int,
{
    broadcast use vstd::seq_lib::group_seq_properties;

    let ghost g = reader_graph_of(s, deltas@);
    if fuel == 0 {
        return Err(ZiaError::DepthLimitReached);
    }
    let c = match s.read_concept(deltas, concept) {
        Some(c) => c,
        None => {
            return Err(ZiaError::UnknownConcept);
        },
    };
    let rf = c.find_what_reduces_to_it();
    let deeper = match normal_form_of_many(s, deltas, rf, fuel - 1) {
        Ok(v) => v,
        Err(e) => {
            return Err(e);
        },
    };
    let mut out: Vec<usize> = Vec::new();
    let mut i: usize = 0;
    proof {
        assert(out@.to_set() =~= rf@.take(0).to_set());
    }
    while i < rf.len()
        invariant
            i <= rf.len(),
            out@.to_set() == rf@.take(i as int).to_set(),
            out@.no_duplicates(),
        decreases rf.len() - i,
    {
        push_unique(&mut out, rf[i]);
        proof {
            broadcast use vstd::seq_lib::group_seq_properties;

            assert(rf@.take(i + 1).drop_last() =~= rf@.take(i as int));
            assert(rf@.take(i + 1).to_set() =~= rf@.take(i as int).to_set().insert(rf@[i as int]));
        }
        i = i + 1;
    }
    proof {
        assert(rf@.take(rf@.len() as int) =~= rf@);
    }
    let mut j: usize = 0;
    while j < deeper.len()
        invariant
            j <= deeper.len(),
            out@.to_set() == c@.reduces_from.to_set().union(deeper@.take(j as int).to_set()),
            out@.no_duplicates(),
            rf@ == c@.reduces_from,
        decreases deeper.len() - j,
    {
        push_unique(&mut out, deeper[j]);
        proof {
            broadcast use vstd::seq_lib::group_seq_properties;

            assert(deeper@.take(j + 1).drop_last() =~= deeper@.take(j as int));
            assert(deeper@.take(j + 1).to_set() =~= deeper@.take(j as int).to_set().insert(
                deeper@[j as int],
            ));
            assert(c@.reduces_from.to_set().union(deeper@.take(j + 1).to_set())
                =~= c@.reduces_from.to_set().union(deeper@.take(j as int).to_set()).insert(
                deeper@[j as int],
            ));
        }
        j = j + 1;
    }
    proof {
        assert(deeper@.take(deeper@.len() as int) =~= deeper@);
    }
    Ok(out)
}

/// Whether `d` composes the label relation with some concept.
pub open spec fn label_pairing(g: GraphV, ids: DesignatedIds, d: usize) -> bool {
    g.concepts.contains_key(d) && (g.concepts[d].definition matches Some(p) && p.0 == ids.label_id)
}

/// The concept that `d` pairs the label relation with.
pub open spec fn label_pairing_target(g: GraphV, d: usize) -> usize {
    g.concepts[d].definition->Some_0.1
}

/// Finding the concept that a labelling chain of reductions names.
pub trait Label: FindWhatItsANormalFormOf {
    /// Searches everything that rewrites to `concept` for a composition
    /// of the label relation: none means `concept` labels nothing, exactly
    /// one gives the labelled concept, and two is a broken uniqueness
    /// invariant. A member of the search that the graph does not hold is a
    /// corrupted reverse index.
    fn get_labellee(&self, deltas: &Vec<Delta>, ids: &DesignatedIds, concept: usize, fuel: usize) -> (
        r: Result<Option<usize>, ZiaError>)
        ensures
            sp_normal_form_of(reader_graph_of(self, deltas@), concept, fuel as nat) matches Err(e)
                ==> r == Err::<Option<usize>, ZiaError>(e),
            sp_normal_form_of(reader_graph_of(self, deltas@), concept, fuel as nat) matches Ok(s)
                ==> (r matches Ok(Some(x)) ==> exists|d: usize|
                s.contains(d) && #[trigger] label_pairing(reader_graph_of(self, deltas@), *ids, d)
                    && label_pairing_target(reader_graph_of(self, deltas@), d) == x && (forall|
                    d2: usize,
                |
                    s.contains(d2) && #[trigger] label_pairing(
                        reader_graph_of(self, deltas@),
                        *ids,
                        d2,
                    ) ==> d2 == d)),
            sp_normal_form_of(reader_graph_of(self, deltas@), concept, fuel as nat) matches Ok(s)
                ==> (r matches Ok(None) ==> forall|d: usize|
                s.contains(d) ==> !(#[trigger] label_pairing(
                    reader_graph_of(self, deltas@),
                    *ids,
                    d,
                )) && reader_graph_of(self, deltas@).concepts.contains_key(d)),
            sp_normal_form_of(reader_graph_of(self, deltas@), concept, fuel as nat) matches Ok(s)
                ==> (r matches Err(e) ==> (e == ZiaError::AmbiguousLabel && (exists|
                d1: usize,
                d2: usize,
            |
                s.contains(d1) && s.contains(d2) && d1 != d2 && #[trigger] label_pairing(
                    reader_graph_of(self, deltas@),
                    *ids,
                    d1,
                ) && #[trigger] label_pairing(reader_graph_of(self, deltas@), *ids, d2))) || (e
                == ZiaError::UnknownConcept && (exists|d: usize|
                #[trigger] s.contains(d) && !reader_graph_of(self, deltas@).concepts.contains_key(
                    d,
                )))),
    ;
}

impl Label for Snapshot {
    fn get_labellee(&self, deltas: &Vec<Delta>, ids: &DesignatedIds, concept: usize, fuel: usize) -> (
        r: Result<Option<usize>, ZiaError>) {
        let ghost g = reader_graph_of(self, deltas@);
        let members = match normal_form_of(self, deltas, concept, fuel) {
            Ok(v) => v,
            Err(e) => {
                return Err(e);
            },
        };
        let ghost s = members@.to_set();
        let mut found: Option<usize> = None;
        let ghost mut found_at: int = 0;
        let mut i: usize = 0;
        while i < members.len()
            invariant
                i <= members.len(),
                g == reader_graph_of(self, deltas@),
                s == members@.to_set(),
                members@.no_duplicates(),
                sp_normal_form_of(g, concept, fuel as nat) == Ok::<Set<usize>, ZiaError>(s),
                forall|k: int|
                    0 <= k < i ==> g.concepts.contains_key(#[trigger] members@[k]),
                match found {
                    Some(x) => 0 <= found_at < i && label_pairing(g, *ids, members@[found_at])
                        && label_pairing_target(g, members@[found_at]) == x && (forall|k: int|
                        0 <= k < i && k != found_at ==> !label_pairing(
                            g,
                            *ids,
                            #[trigger] members@[k],
                        )),
                    None => forall|k: int|
                        0 <= k < i ==> !label_pairing(g, *ids, #[trigger] members@[k]),
                },
            decreases members.len() - i,
        {
            let d = members[i];
            match self.read_concept(deltas, d) {
                None => {
                    proof {
                        assert(members@.contains(d)) by {
                            assert(0 <= (i as int) < members@.len() && members@[i as int] == d);
                        }
                        assert(s.contains(d));
                        assert(!g.concepts.contains_key(d));
                        let g2 = reader_graph_of(self, deltas@);
                        match sp_normal_form_of(g2, concept, fuel as nat) {
                            Ok(s2) => {
                                assert(s2 == s);
                                assert(exists|d2: usize|
                                    #[trigger] s2.contains(d2) && !g2.concepts.contains_key(
                                        d2,
                                    )) by {
                                    assert(s2.contains(d) && !g2.concepts.contains_key(d));
                                }
                            },
                            Err(_) => {},
                        }
                    }
                    return Err(ZiaError::UnknownConcept);
                },
                Some(m) => match m.get_definition() {
                    Some((rel, x)) => {
                        if rel == ids.label_id {
                            match found {
                                None => {
                                    found = Some(x);
                                    proof {
                                        found_at = i as int;
                                    }
                                },
                                Some(_) => {
                                    proof {
                                        let w1 = members@[found_at];
                                        let w2 = members@[i as int];
                                        assert(members@.contains(w1)) by {
                                            assert(0 <= found_at < members@.len()
                                                && members@[found_at] == w1);
                                        }
                                        assert(members@.contains(w2)) by {
                                            assert(0 <= (i as int) < members@.len()
                                                && members@[i as int] == w2);
                                        }
                                        assert(s.contains(w1));
                                        assert(s.contains(w2));
                                        assert(w1 != w2);
                                        assert(label_pairing(g, *ids, w1));
                                        assert(label_pairing(g, *ids, w2));
                                        assert(exists|d1: usize, d2: usize|
                                            s.contains(d1) && s.contains(d2) && d1 != d2
                                                && #[trigger] label_pairing(g, *ids, d1)
                                                && #[trigger] label_pairing(g, *ids, d2)) by {
                                            assert(s.contains(w1) && s.contains(w2) && w1 != w2
                                                && label_pairing(g, *ids, w1) && label_pairing(
                                                g,
                                                *ids,
                                                w2,
                                            ));
                                        }
                                    }
                                    return Err(ZiaError::AmbiguousLabel);
                                },
                            }
                        }
                    },
                    None => (),
                },
            }
            i = i + 1;
        }
        proof {
            match found {
                Some(x) => {
                    assert(members@.contains(members@[found_at])) by {
                        assert(0 <= found_at < members@.len());
                    }
                    assert(s.contains(members@[found_at]));
                    assert forall|d2: usize|
                        s.contains(d2) && #[trigger] label_pairing(g, *ids, d2) implies d2
                        == members@[found_at] by {
                        assert(members@.contains(d2));
                        let k = choose|k: int| 0 <= k < members@.len() && members@[k] == d2;
                        assert(k == found_at);
                    }
                },
                None => {
                    assert forall|d2: usize| s.contains(d2) implies !(#[trigger] label_pairing(
                        g,
                        *ids,
                        d2,
                    )) && g.concepts.contains_key(d2) by {
                        assert(members@.contains(d2));
                        let k = choose|k: int| 0 <= k < members@.len() && members@[k] == d2;
                    }
                },
            }
        }
        Ok(found)
    }
}

/// The union of `normal_form_of` over a run of concepts, each member
/// listed once.
fn normal_form_of_many(s: &Snapshot, deltas: &Vec<Delta>, cs: &Vec<usize>, fuel: usize) -> (r:
    Result<Vec<usize>, ZiaError>)
    ensures
        match r {
            Ok(v) => sp_normal_form_of_many(reader_graph_of(s, deltas@), cs@, fuel as nat) == Ok::<
                Set<usize>,
                ZiaError,
            >(v@.to_set()) && v@.no_duplicates(),
            Err(e) => sp_normal_form_of_many(reader_graph_of(s, deltas@), cs@, fuel as nat)
                == Err::<Set<usize>, ZiaError>(e),
        },
    decreases fuel, 1int,
{
    broadcast use vstd::seq_lib::group_seq_properties;

    let ghost g = reader_graph_of(s, deltas@);
    let mut out: Vec<usize> = Vec::new();
    let mut i: usize = 0;
    proof {
        assert(cs@.skip(0) =~= cs@);
        assert(out@.to_set() =~= Set::<usize>::empty());
        match sp_normal_form_of_many(g, cs@, fuel as nat) {
            Ok(rest) => {
                assert(out@.to_set().union(rest) =~= rest);
            },
            Err(_) => {},
        }
    }
    while i < cs.len()
        invariant
            i <= cs.len(),
            g == reader_graph_of(s, deltas@),
            out@.no_duplicates(),
            sp_normal_form_of_many(g, cs@, fuel as nat) == (match sp_normal_form_of_many(
                g,
                cs@.skip(i as int),
                fuel as nat,
            ) {
                Ok(rest) => Ok::<Set<usize>, ZiaError>(out@.to_set().union(rest)),
                Err(e) => Err::<Set<usize>, ZiaError>(e),
            }),
        decreases cs.len() - i,
    {
        proof {
            assert(cs@.skip(i as int).first() == cs@[i as int]);
            assert(cs@.skip(i as int).drop_first() =~= cs@.skip(i + 1));
        }
        if fuel == 0 {
            return Err(ZiaError::DepthLimitReached);
        }
        let sub = match normal_form_of(s, deltas, cs[i], fuel - 1) {
            Ok(v) => v,
            Err(e) => {
                return Err(e);
            },
        };
        let ghost before = out@.to_set();
        let mut k: usize = 0;
        while k < sub.len()
            invariant
                k <= sub.len(),
                out@.to_set() == before.union(sub@.take(k as int).to_set()),
                out@.no_duplicates(),
            decreases sub.len() - k,
        {
            push_unique(&mut out, sub[k]);
            proof {
                broadcast use vstd::seq_lib::group_seq_properties;

                assert(sub@.take(k + 1).drop_last() =~= sub@.take(k as int));
                assert(sub@.take(k + 1).to_set() =~= sub@.take(k as int).to_set().insert(
                    sub@[k as int],
                ));
                assert(before.union(sub@.take(k + 1).to_set()) =~= before.union(
                    sub@.take(k as int).to_set(),
                ).insert(sub@[k as int]));
            }
            k = k + 1;
        }
        proof {
            assert(sub@.take(sub@.len() as int) =~= sub@);
            match sp_normal_form_of_many(g, cs@.skip(i + 1), fuel as nat) {
                Ok(rest) => {
                    assert(before.union(sub@.to_set()).union(rest) =~= before.union(
                        sub@.to_set().union(rest),
                    ));
                },
                Err(_) => {},
            }
        }
        i = i + 1;
    }
    proof {
        assert(cs@.skip(cs@.len() as int) =~= Seq::<usize>::empty());
        assert(out@.to_set().union(Set::<usize>::empty()) =~= out@.to_set());
    }
    Ok(out)
}

} // verus!
