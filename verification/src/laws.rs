//! The laws of the engine: properties that hold of every graph state, or
//! of every well-formed one, proved once and for all against the
//! specification functions that the executable engine is verified to
//! implement.

use vstd::prelude::*;
use crate::ast::{tree_eq, TreeV};
use crate::reading::{
    sp_combine, sp_compare, sp_concept_syntax, sp_contract_pair,
    sp_definition_scan, sp_determine_evidence_of_reduction, sp_determine_reduction_truth,
    sp_display_joint, sp_find_definition, sp_get_associativity, sp_get_label, sp_get_normal_form,
    sp_greater_than_query, sp_join, sp_match_left_right, sp_read, sp_recursively_reduce,
    sp_reduce, sp_reduce_concept, sp_reduce_pair, sp_to_ast, Comparison, ZiaError,
};
use crate::concepts::ConceptV;
use crate::removing::{
    sp_cleanly_delete_definition, sp_remove_definition_edge, sp_try_delete_concept,
};
use crate::reading::sp_is_disconnected;
use crate::snapshot::{map_get, DesignatedIds, GraphV};

verus! {

/// Every definition edge has matching entries in both operands' reverse
/// indices.
pub open spec fn wf_forward(g: GraphV) -> bool {
    forall|c: usize|
        #[trigger] g.concepts.contains_key(c) ==> match g.concepts[c].definition {
            Some((l, r)) => g.concepts.contains_key(l) && g.concepts.contains_key(r)
                && g.concepts[l].lefthand_of.contains(c) && g.concepts[r].righthand_of.contains(c),
            None => true,
        }
}

/// Every reverse-index entry records a real definition edge.
pub open spec fn wf_backward(g: GraphV) -> bool {
    (forall|c: usize, i: int|
        g.concepts.contains_key(c) && 0 <= i < g.concepts[c].lefthand_of.len()
            ==> g.concepts.contains_key(#[trigger] g.concepts[c].lefthand_of[i])
            && (g.concepts[g.concepts[c].lefthand_of[i]].definition matches Some(p) && p.0 == c))
        && (forall|c: usize, i: int|
        g.concepts.contains_key(c) && 0 <= i < g.concepts[c].righthand_of.len()
            ==> g.concepts.contains_key(#[trigger] g.concepts[c].righthand_of[i])
            && (g.concepts[g.concepts[c].righthand_of[i]].definition matches Some(p) && p.1 == c))
}

/// No reverse index lists the same composite twice.
pub open spec fn wf_no_duplicates(g: GraphV) -> bool {
    forall|c: usize|
        #[trigger] g.concepts.contains_key(c) ==> g.concepts[c].lefthand_of.no_duplicates()
            && g.concepts[c].righthand_of.no_duplicates()
}

/// At most one concept is defined as any given ordered operand pair.
pub open spec fn wf_unique_pairs(g: GraphV) -> bool {
    forall|c1: usize, c2: usize|
        g.concepts.contains_key(c1) && g.concepts.contains_key(c2)
            && (#[trigger] g.concepts[c1]).definition is Some && (
        #[trigger] g.concepts[c2]).definition is Some && g.concepts[c1].definition
            == g.concepts[c2].definition ==> c1 == c2
}

/// The well-formedness of a graph: consistent reverse indices, free of
/// duplicates, and a unique composite per ordered operand pair. Breaking
/// any part of this corrupts definition lookup, disconnection testing and
/// label resolution.
pub open spec fn wf_graph(g: GraphV) -> bool {
    wf_forward(g) && wf_backward(g) && wf_no_duplicates(g) && wf_unique_pairs(g)
}

/// Structural equality is reflexive.
pub proof fn lemma_tree_eq_reflexive(a: TreeV)
    ensures
        tree_eq(a, a),
    decreases a,
{
    match a.pair {
        Some(p) => {
            lemma_tree_eq_reflexive(*p.0);
            lemma_tree_eq_reflexive(*p.1);
        },
        None => {},
    }
}

/// Structural equality is symmetric.
pub proof fn lemma_tree_eq_symmetric(a: TreeV, b: TreeV)
    ensures
        tree_eq(a, b) == tree_eq(b, a),
    decreases a,
{
    match (a.pair, b.pair) {
        (Some(p), Some(q)) => {
            lemma_tree_eq_symmetric(*p.0, *q.0);
            lemma_tree_eq_symmetric(*p.1, *q.1);
        },
        _ => {},
    }
}

/// The definition scan never faults and finds exactly the composite of
/// the operand pair, provided its inputs come from a well-formed graph's
/// reverse indices.
proof fn lemma_definition_scan(
    g: GraphV,
    l: usize,
    r: usize,
    lh: Seq<usize>,
    rh: Seq<usize>,
    found: Option<usize>,
)
    requires
        forall|i: int|
            0 <= i < lh.len() ==> g.concepts.contains_key(#[trigger] lh[i]) && (g.concepts[lh[i]].definition
                matches Some(p) && p.0 == l),
        forall|x: usize|
            rh.contains(x) == (g.concepts.contains_key(x) && (#[trigger] g.concepts[x].definition)
                == Some((l, r))) || !(g.concepts.contains_key(x) && (g.concepts[x].definition
                matches Some(p) && p.0 == l)),
        lh.no_duplicates(),
        wf_unique_pairs(g),
        match found {
            Some(d) => g.concepts.contains_key(d) && g.concepts[d].definition == Some((l, r))
                && !lh.contains(d),
            None => true,
        },
    ensures
        !(sp_definition_scan(lh, rh, found) is Err),
        sp_definition_scan(lh, rh, found) matches Ok(Some(d)) ==> g.concepts.contains_key(d)
            && g.concepts[d].definition == Some((l, r)),
        sp_definition_scan(lh, rh, found) matches Ok(None) ==> found is None && (forall|i: int|
            0 <= i < lh.len() ==> g.concepts[#[trigger] lh[i]].definition != Some((l, r))),
    decreases lh.len(),
{
    if lh.len() > 0 {
        let f = lh.first();
        assert(lh[0] == f);
        assert(lh.drop_first().no_duplicates());
        assert(forall|i: int|
            0 <= i < lh.drop_first().len() ==> #[trigger] lh.drop_first()[i] == lh[i + 1]);
        if rh.contains(f) {
            assert(g.concepts[f].definition == Some((l, r)));
            match found {
                Some(d) => {
                    assert(d == f);
                    assert(lh.contains(d));
                    assert(false);
                },
                None => {
                    assert(!lh.drop_first().contains(f)) by {
                        if lh.drop_first().contains(f) {
                            let i = choose|i: int|
                                0 <= i < lh.drop_first().len() && lh.drop_first()[i] == f;
                            assert(lh[i + 1] == f);
                            assert(lh[0] == f);
                        }
                    }
                    lemma_definition_scan(g, l, r, lh.drop_first(), rh, Some(f));
                },
            }
        } else {
            assert(g.concepts[f].definition != Some((l, r)));
            lemma_definition_scan(g, l, r, lh.drop_first(), rh, found);
            if sp_definition_scan(lh, rh, found) matches Ok(None) {
                assert forall|i: int| 0 <= i < lh.len() implies g.concepts[#[trigger] lh[i]].definition
                    != Some((l, r)) by {
                    if i > 0 {
                        assert(lh.drop_first()[i - 1] == lh[i]);
                    }
                }
            }
        }
    }
}

/// On a well-formed graph, finding a definition never faults: it returns
/// the one concept defined as the ordered pair `(l, r)`, or nothing where
/// no such concept exists.
pub proof fn lemma_find_definition_well_formed(g: GraphV, l: usize, r: usize)
    requires
        wf_graph(g),
        g.concepts.contains_key(l),
        g.concepts.contains_key(r),
    ensures
        match sp_find_definition(g, l, r) {
            Ok(Some(d)) => g.concepts.contains_key(d) && g.concepts[d].definition == Some((l, r))
                && (forall|d2: usize|
                g.concepts.contains_key(d2) && (#[trigger] g.concepts[d2]).definition == Some(
                    (l, r),
                ) ==> d2 == d),
            Ok(None) => forall|d: usize|
                g.concepts.contains_key(d) ==> (#[trigger] g.concepts[d]).definition != Some(
                    (l, r),
                ),
            Err(_) => false,
        },
{
    let lh = g.concepts[l].lefthand_of;
    let rh = g.concepts[r].righthand_of;
    assert forall|i: int| 0 <= i < lh.len() implies g.concepts.contains_key(#[trigger] lh[i]) && (
    g.concepts[lh[i]].definition matches Some(p) && p.0 == l) by {
        assert(g.concepts.contains_key(l) && 0 <= i < g.concepts[l].lefthand_of.len());
    }
    assert forall|x: usize|
        (rh.contains(x) == (g.concepts.contains_key(x) && (#[trigger] g.concepts[x].definition)
            == Some((l, r))) || !(g.concepts.contains_key(x) && (g.concepts[x].definition
            matches Some(p) && p.0 == l))) by {
        if g.concepts.contains_key(x) && (g.concepts[x].definition matches Some(p) && p.0 == l) {
            if g.concepts[x].definition == Some((l, r)) {
                assert(rh.contains(x));
            } else {
                if rh.contains(x) {
                    let i = choose|i: int| 0 <= i < rh.len() && rh[i] == x;
                    assert(g.concepts.contains_key(r) && 0 <= i
                        < g.concepts[r].righthand_of.len());
                    assert(g.concepts[x].definition matches Some(p) && p.1 == r);
                    assert(false);
                }
            }
        }
    }
    lemma_definition_scan(g, l, r, lh, rh, None);
    match sp_definition_scan(lh, rh, None) {
        Ok(Some(d)) => {
            assert forall|d2: usize|
                g.concepts.contains_key(d2) && (#[trigger] g.concepts[d2]).definition == Some(
                    (l, r),
                ) implies d2 == d by {}
        },
        Ok(None) => {
            assert forall|d: usize| g.concepts.contains_key(d) implies (
            #[trigger] g.concepts[d]).definition != Some((l, r)) by {
                if g.concepts[d].definition == Some((l, r)) {
                    assert(g.concepts[l].lefthand_of.contains(d));
                    let i = choose|i: int| 0 <= i < lh.len() && lh[i] == d;
                    assert(g.concepts[lh[i]].definition != Some((l, r)));
                }
            }
        },
        Err(_) => {},
    }
}

/// A member held by both reverse indices makes the scan fault once a
/// first match is already in hand.
proof fn lemma_scan_errs_with_match(lh: Seq<usize>, rh: Seq<usize>, found: Option<usize>, d: usize)
    requires
        found is Some,
        lh.contains(d),
        rh.contains(d),
    ensures
        sp_definition_scan(lh, rh, found) == Err::<Option<usize>, ZiaError>(
            ZiaError::AmbiguousDefinition,
        ),
    decreases lh.len(),
{
    let f = lh.first();
    if !rh.contains(f) {
        assert(f != d);
        assert(lh.drop_first().contains(d)) by {
            let i = choose|i: int| 0 <= i < lh.len() && lh[i] == d;
            assert(i > 0);
            assert(lh.drop_first()[i - 1] == d);
        }
        lemma_scan_errs_with_match(lh.drop_first(), rh, found, d);
    }
}

/// Two distinct members held by both reverse indices make the scan fault.
proof fn lemma_scan_errs_with_two(lh: Seq<usize>, rh: Seq<usize>, d1: usize, d2: usize)
    requires
        lh.contains(d1),
        lh.contains(d2),
        d1 != d2,
        rh.contains(d1),
        rh.contains(d2),
    ensures
        sp_definition_scan(lh, rh, None) == Err::<Option<usize>, ZiaError>(
            ZiaError::AmbiguousDefinition,
        ),
    decreases lh.len(),
{
    let f = lh.first();
    if rh.contains(f) {
        let witness = if d1 != f {
            d1
        } else {
            d2
        };
        assert(witness != f);
        assert(lh.drop_first().contains(witness)) by {
            let i = choose|i: int| 0 <= i < lh.len() && lh[i] == witness;
            assert(i > 0);
            assert(lh.drop_first()[i - 1] == witness);
        }
        lemma_scan_errs_with_match(lh.drop_first(), rh, Some(f), witness);
    } else {
        assert(f != d1 && f != d2);
        assert(lh.drop_first().contains(d1) && lh.drop_first().contains(d2)) by {
            let i1 = choose|i: int| 0 <= i < lh.len() && lh[i] == d1;
            let i2 = choose|i: int| 0 <= i < lh.len() && lh[i] == d2;
            assert(i1 > 0 && i2 > 0);
            assert(lh.drop_first()[i1 - 1] == d1);
            assert(lh.drop_first()[i2 - 1] == d2);
        }
        lemma_scan_errs_with_two(lh.drop_first(), rh, d1, d2);
    }
}

/// Two concepts defined as the same ordered operand pair are a modeled
/// invariant violation: as long as the reverse indices themselves are
/// consistent, looking the pair up reports the ambiguity fault rather than
/// guessing between them.
pub proof fn lemma_duplicate_pair_is_ambiguous(
    g: GraphV,
    l: usize,
    r: usize,
    d1: usize,
    d2: usize,
)
    requires
        wf_forward(g),
        g.concepts.contains_key(d1),
        g.concepts.contains_key(d2),
        d1 != d2,
        g.concepts[d1].definition == Some((l, r)),
        g.concepts[d2].definition == Some((l, r)),
    ensures
        sp_find_definition(g, l, r) == Err::<Option<usize>, ZiaError>(
            ZiaError::AmbiguousDefinition,
        ),
{
    lemma_scan_errs_with_two(
        g.concepts[l].lefthand_of,
        g.concepts[r].righthand_of,
        d1,
        d2,
    );
}

/// A well-rendered concept is bound to itself: on a well-formed graph,
/// whatever `sp_to_ast` returns for `c` carries the binding `c`.
pub proof fn lemma_to_ast_bound(g: GraphV, ids: DesignatedIds, c: usize, fuel: nat)
    requires
        wf_graph(g),
    ensures
        sp_to_ast(g, ids, c, fuel) matches Ok(t) ==> t.concept == Some(c),
    decreases fuel,
{
    if fuel > 0 {
        match sp_to_ast(g, ids, c, fuel) {
            Ok(t) => {
                match sp_get_label(g, ids, c, (fuel - 1) as nat) {
                    Ok(Some(_)) => {},
                    Ok(None) => {
                        match sp_read(g, c) {
                            Ok(cv) => match cv.definition {
                                Some((l, r)) => {
                                    lemma_to_ast_bound(g, ids, l, (fuel - 1) as nat);
                                    lemma_to_ast_bound(g, ids, r, (fuel - 1) as nat);
                                    lemma_find_definition_well_formed(g, l, r);
                                    assert(sp_find_definition(g, l, r) == Ok::<
                                        Option<usize>,
                                        ZiaError,
                                    >(Some(c)));
                                },
                                None => {},
                            },
                            Err(_) => {},
                        }
                    },
                    Err(_) => {},
                }
            },
            Err(_) => {},
        }
    }
}

/// For every concept `c` defined as `(l, r)` in a well-formed graph, the
/// rendering of `c` is structurally equal to the combination of the
/// renderings of `l` and `r`, whatever depth budgets produced the three
/// renderings.
pub proof fn lemma_to_ast_composes(
    g: GraphV,
    ids: DesignatedIds,
    c: usize,
    l: usize,
    r: usize,
    t: TreeV,
    tl: TreeV,
    tr: TreeV,
    tc: TreeV,
    fuel: nat,
    fuel_parts: nat,
    fuel_combine: nat,
)
    requires
        wf_graph(g),
        g.concepts.contains_key(c),
        g.concepts[c].definition == Some((l, r)),
        sp_to_ast(g, ids, c, fuel) == Ok::<TreeV, ZiaError>(t),
        sp_to_ast(g, ids, l, fuel_parts) == Ok::<TreeV, ZiaError>(tl),
        sp_to_ast(g, ids, r, fuel_parts) == Ok::<TreeV, ZiaError>(tr),
        sp_combine(g, ids, tl, tr, fuel_combine) == Ok::<TreeV, ZiaError>(tc),
    ensures
        tree_eq(t, tc),
{
    lemma_to_ast_bound(g, ids, c, fuel);
    lemma_to_ast_bound(g, ids, l, fuel_parts);
    lemma_to_ast_bound(g, ids, r, fuel_parts);
    lemma_find_definition_well_formed(g, l, r);
    assert(sp_find_definition(g, l, r) == Ok::<Option<usize>, ZiaError>(Some(c)));
    assert(tc.concept == Some(c));
}

/// A leaf bound to a concept with neither reduction nor definition is a
/// normal form: one rewriting step returns nothing.
pub proof fn lemma_reduce_normal_concept(g: GraphV, ids: DesignatedIds, t: TreeV, fuel: nat)
    requires
        fuel >= 2,
        t.pair is None,
        t.concept matches Some(c) && g.concepts.contains_key(c) && g.concepts[c].reduction is None
            && g.concepts[c].definition is None,
    ensures
        sp_reduce(g, ids, t, fuel) == Ok::<Option<TreeV>, ZiaError>(None),
{
}

/// A bare leaf bound to nothing is a normal form.
pub proof fn lemma_reduce_bare_leaf(g: GraphV, ids: DesignatedIds, t: TreeV, fuel: nat)
    requires
        fuel >= 1,
        t.pair is None,
        t.concept is None,
    ensures
        sp_reduce(g, ids, t, fuel) == Ok::<Option<TreeV>, ZiaError>(None),
{
}

/// An unbound pair that is no associativity shortcut and no
/// reduction-assertion, and whose children are both normal forms, is a
/// normal form itself.
pub proof fn lemma_reduce_normal_pair(g: GraphV, ids: DesignatedIds, t: TreeV, fuel: nat)
    requires
        fuel >= 3,
        t.concept is None,
        t.pair matches Some(p) && (*p.0).concept != Some(ids.assoc_id) && (*p.1).pair is None
            && sp_reduce(g, ids, *p.0, (fuel - 2) as nat) == Ok::<Option<TreeV>, ZiaError>(None)
            && sp_reduce(g, ids, *p.1, (fuel - 2) as nat) == Ok::<Option<TreeV>, ZiaError>(None),
    ensures
        sp_reduce(g, ids, t, fuel) == Ok::<Option<TreeV>, ZiaError>(None),
{
    let p = t.pair->Some_0;
    assert(sp_reduce_pair(g, ids, *p.0, *p.1, (fuel - 1) as nat) == Ok::<Option<TreeV>, ZiaError>(
        None,
    ));
}

/// Deleting the definition of a composite that nothing else refers to
/// leaves the composite disconnected once its edge is removed, and the
/// garbage collection then removes the composite and both of its
/// operands — here each connected to the graph only through the deleted
/// composition — from the concept store and the label store alike.
pub proof fn lemma_clean_deletion_collects(
    g: GraphV,
    ids: DesignatedIds,
    c: usize,
    l: usize,
    r: usize,
)
    requires
        g.concepts.contains_key(c),
        g.concepts[c].definition == Some((l, r)),
        g.concepts[c].reduction is None,
        g.concepts[c].lefthand_of == Seq::<usize>::empty(),
        g.concepts[c].righthand_of == Seq::<usize>::empty(),
        g.concepts[c].reduces_from == Seq::<usize>::empty(),
        l != r,
        l != c,
        r != c,
        g.concepts.contains_key(l),
        g.concepts.contains_key(r),
        g.concepts[l].definition is None,
        g.concepts[l].reduction is None,
        g.concepts[l].reduces_from == Seq::<usize>::empty(),
        g.concepts[l].lefthand_of == seq![c],
        g.concepts[l].righthand_of == Seq::<usize>::empty(),
        g.concepts[r].definition is None,
        g.concepts[r].reduction is None,
        g.concepts[r].reduces_from == Seq::<usize>::empty(),
        g.concepts[r].lefthand_of == Seq::<usize>::empty(),
        g.concepts[r].righthand_of == seq![c],
    ensures
        sp_remove_definition_edge(g, c) matches Ok(g3) && sp_is_disconnected(g3, ids, c)
            == Ok::<bool, ZiaError>(true),
        sp_cleanly_delete_definition(g, ids, c) matches Ok(g6) && !g6.concepts.contains_key(c)
            && !g6.concepts.contains_key(l) && !g6.concepts.contains_key(r)
            && !g6.labels.contains_key(c) && !g6.labels.contains_key(l)
            && !g6.labels.contains_key(r),
{
    let cv = g.concepts[c];
    let singleton = seq![c];
    singleton.index_of_first_ensures(c);
    assert(singleton.contains(c)) by {
        assert(singleton[0] == c);
    }
    assert(singleton.index_of_first(c) == Some(0int)) by {
        let i = singleton.index_of_first(c)->Some_0;
        assert(0 <= i < 1);
    }
    assert(singleton.remove_value(c) =~= Seq::<usize>::empty());

    let g1 = GraphV {
        concepts: g.concepts.insert(c, ConceptV { definition: None, ..cv }),
        labels: g.labels,
    };
    let lv = g1.concepts[l];
    let g2 = GraphV {
        concepts: g1.concepts.insert(
            l,
            ConceptV { lefthand_of: lv.lefthand_of.remove_value(c), ..lv },
        ),
        labels: g.labels,
    };
    let rv = g2.concepts[r];
    let g3 = GraphV {
        concepts: g2.concepts.insert(
            r,
            ConceptV { righthand_of: rv.righthand_of.remove_value(c), ..rv },
        ),
        labels: g.labels,
    };
    assert(sp_remove_definition_edge(g, c) == Ok::<GraphV, ZiaError>(g3));

    // The composite is disconnected once the edge is gone.
    assert(g3.concepts[c].righthand_of == Seq::<usize>::empty());
    assert(sp_is_disconnected(g3, ids, c) == Ok::<bool, ZiaError>(true));

    // It is collected.
    let cv3 = g3.concepts[c];
    let labels_c = match crate::concepts::text_of(cv3.specific) {
        Some(s) => crate::removing::strip_label_value(g3.labels.remove(c), s),
        None => g3.labels.remove(c),
    };
    let g4 = GraphV { concepts: g3.concepts.remove(c), labels: labels_c };
    assert(sp_try_delete_concept(g3, ids, c) == Ok::<GraphV, ZiaError>(g4));

    // The left operand lost its one connection and is collected too.
    assert(g4.concepts[l].lefthand_of == Seq::<usize>::empty());
    assert(g4.concepts[l].righthand_of == Seq::<usize>::empty());
    assert(sp_is_disconnected(g4, ids, l) == Ok::<bool, ZiaError>(true));
    let lv4 = g4.concepts[l];
    let labels_l = match crate::concepts::text_of(lv4.specific) {
        Some(s) => crate::removing::strip_label_value(g4.labels.remove(l), s),
        None => g4.labels.remove(l),
    };
    let g5 = GraphV { concepts: g4.concepts.remove(l), labels: labels_l };
    assert(sp_try_delete_concept(g4, ids, l) == Ok::<GraphV, ZiaError>(g5));

    // And the right operand with it.
    assert(g5.concepts[r].righthand_of == Seq::<usize>::empty());
    assert(g5.concepts[r].lefthand_of == Seq::<usize>::empty());
    assert(sp_is_disconnected(g5, ids, r) == Ok::<bool, ZiaError>(true));
    let rv5 = g5.concepts[r];
    let labels_r = match crate::concepts::text_of(rv5.specific) {
        Some(s) => crate::removing::strip_label_value(g5.labels.remove(r), s),
        None => g5.labels.remove(r),
    };
    let g6 = GraphV { concepts: g5.concepts.remove(r), labels: labels_r };
    assert(sp_try_delete_concept(g5, ids, r) == Ok::<GraphV, ZiaError>(g6));

    assert(sp_cleanly_delete_definition(g, ids, c) == Ok::<GraphV, ZiaError>(g6));
    assert(!g6.labels.contains_key(c));
    assert(!g6.labels.contains_key(l));
    assert(!g6.labels.contains_key(r));
}

/// Whether a result is the depth fault.
pub open spec fn depth_fault<T>(r: Result<T, ZiaError>) -> bool {
    r == Err::<T, ZiaError>(ZiaError::DepthLimitReached)
}

/// A reduction chase that succeeded within some budget gives the same
/// answer under any larger budget.
pub proof fn lemma_mono_get_normal_form(g: GraphV, c: usize, f1: nat, f2: nat)
    requires
        f1 <= f2,
        !depth_fault(sp_get_normal_form(g, c, f1)),
    ensures
        sp_get_normal_form(g, c, f2) == sp_get_normal_form(g, c, f1),
    decreases f1,
{
    if f1 > 0 {
        match sp_read(g, c) {
            Ok(cv) => match cv.reduction {
                Some(n) => {
                    if !depth_fault(sp_get_normal_form(g, n, (f1 - 1) as nat)) {
                        lemma_mono_get_normal_form(g, n, (f1 - 1) as nat, (f2 - 1) as nat);
                    }
                },
                None => {},
            },
            Err(_) => {},
        }
    }
}

/// A label resolution that succeeded within some budget gives the same
/// answer under any larger budget.
pub proof fn lemma_mono_get_label(g: GraphV, ids: DesignatedIds, c: usize, f1: nat, f2: nat)
    requires
        f1 <= f2,
        !depth_fault(sp_get_label(g, ids, c, f1)),
    ensures
        sp_get_label(g, ids, c, f2) == sp_get_label(g, ids, c, f1),
    decreases f1,
{
    if f1 > 0 {
        match map_get(g.labels, c) {
            Some(_) => {},
            None => match crate::reading::sp_get_concept_of_label(g, ids, c) {
                Ok(Some(d)) => {
                    if !depth_fault(sp_get_normal_form(g, d, (f1 - 1) as nat)) {
                        lemma_mono_get_normal_form(g, d, (f1 - 1) as nat, (f2 - 1) as nat);
                    }
                },
                Ok(None) => match sp_read(g, c) {
                    Ok(cv) => match cv.reduction {
                        Some(n) => {
                            if !depth_fault(sp_get_label(g, ids, n, (f1 - 1) as nat)) {
                                lemma_mono_get_label(g, ids, n, (f1 - 1) as nat, (f2 - 1) as nat);
                            }
                        },
                        None => {},
                    },
                    Err(_) => {},
                },
                Err(_) => {},
            },
        }
    }
}

/// A rendering for the rewriting paths that succeeded within some budget
/// gives the same answer under any larger budget.
pub proof fn lemma_mono_concept_syntax(g: GraphV, ids: DesignatedIds, c: usize, f1: nat, f2: nat)
    requires
        f1 <= f2,
        !depth_fault(sp_concept_syntax(g, ids, c, f1)),
    ensures
        sp_concept_syntax(g, ids, c, f2) == sp_concept_syntax(g, ids, c, f1),
    decreases f1,
{
    if f1 > 0 {
        let s1 = (f1 - 1) as nat;
        let s2 = (f2 - 1) as nat;
        if !depth_fault(sp_get_label(g, ids, c, s1)) {
            lemma_mono_get_label(g, ids, c, s1, s2);
            match sp_get_label(g, ids, c, s1) {
                Ok(Some(_)) => {},
                Ok(None) => match sp_read(g, c) {
                    Ok(cv) => match cv.definition {
                        Some((l, r)) => {
                            if !depth_fault(sp_concept_syntax(g, ids, l, s1)) {
                                lemma_mono_concept_syntax(g, ids, l, s1, s2);
                                if !depth_fault(sp_concept_syntax(g, ids, r, s1)) {
                                    lemma_mono_concept_syntax(g, ids, r, s1, s2);
                                    match (
                                        sp_concept_syntax(g, ids, l, s1),
                                        sp_concept_syntax(g, ids, r, s1),
                                    ) {
                                        (Ok(lt), Ok(rt)) => {
                                            if !depth_fault(sp_combine(g, ids, lt, rt, s1)) {
                                                lemma_mono_combine(g, ids, lt, rt, s1, s2);
                                            }
                                        },
                                        _ => {},
                                    }
                                }
                            }
                        },
                        None => {},
                    },
                    Err(_) => {},
                },
                Err(_) => {},
            }
        }
    }
}

/// A join that succeeded within some budget gives the same answer under
/// any larger budget.
pub proof fn lemma_mono_join(g: GraphV, ids: DesignatedIds, a: TreeV, b: TreeV, f1: nat, f2: nat)
    requires
        f1 <= f2,
        !depth_fault(sp_join(g, ids, a, b, f1)),
    ensures
        sp_join(g, ids, a, b, f2) == sp_join(g, ids, a, b, f1),
    decreases f1,
{
    if f1 > 0 {
        if !depth_fault(sp_display_joint(g, ids, a, b, (f1 - 1) as nat)) {
            lemma_mono_display_joint(g, ids, a, b, (f1 - 1) as nat, (f2 - 1) as nat);
        }
    }
}

/// A combination that succeeded within some budget gives the same answer
/// under any larger budget.
pub proof fn lemma_mono_combine(g: GraphV, ids: DesignatedIds, a: TreeV, b: TreeV, f1: nat, f2: nat)
    requires
        f1 <= f2,
        !depth_fault(sp_combine(g, ids, a, b, f1)),
    ensures
        sp_combine(g, ids, a, b, f2) == sp_combine(g, ids, a, b, f1),
    decreases f1,
{
    if f1 > 0 {
        let s1 = (f1 - 1) as nat;
        let s2 = (f2 - 1) as nat;
        if !depth_fault(sp_join(g, ids, a, b, s1)) {
            lemma_mono_join(g, ids, a, b, s1, s2);
        }
    }
}

/// A printed joint that succeeded within some budget reads the same under
/// any larger budget.
pub proof fn lemma_mono_display_joint(
    g: GraphV,
    ids: DesignatedIds,
    l: TreeV,
    r: TreeV,
    f1: nat,
    f2: nat,
)
    requires
        f1 <= f2,
        !depth_fault(sp_display_joint(g, ids, l, r, f1)),
    ensures
        sp_display_joint(g, ids, l, r, f2) == sp_display_joint(g, ids, l, r, f1),
    decreases f1,
{
    if f1 > 0 {
        let s1 = (f1 - 1) as nat;
        let s2 = (f2 - 1) as nat;
        match l.pair {
            Some(p) => {
                if !depth_fault(sp_get_associativity(g, ids, *p.1, s1)) {
                    lemma_mono_get_associativity(g, ids, *p.1, s1, s2);
                }
            },
            None => {},
        }
        match r.pair {
            Some(q) => {
                if !depth_fault(sp_get_associativity(g, ids, *q.0, s1)) {
                    lemma_mono_get_associativity(g, ids, *q.0, s1, s2);
                }
            },
            None => {},
        }
    }
}

/// An associativity that resolved within some budget resolves the same
/// under any larger budget.
pub proof fn lemma_mono_get_associativity(
    g: GraphV,
    ids: DesignatedIds,
    t: TreeV,
    f1: nat,
    f2: nat,
)
    requires
        f1 <= f2,
        !depth_fault(sp_get_associativity(g, ids, t, f1)),
    ensures
        sp_get_associativity(g, ids, t, f2) == sp_get_associativity(g, ids, t, f1),
    decreases f1,
{
    if f1 > 0 {
        let s1 = (f1 - 1) as nat;
        let s2 = (f2 - 1) as nat;
        if !depth_fault(sp_concept_syntax(g, ids, ids.assoc_id, s1)) {
            lemma_mono_concept_syntax(g, ids, ids.assoc_id, s1, s2);
            match sp_concept_syntax(g, ids, ids.assoc_id, s1) {
                Ok(assoc_ast) => {
                    if !depth_fault(sp_combine(g, ids, assoc_ast, t, s1)) {
                        lemma_mono_combine(g, ids, assoc_ast, t, s1, s2);
                        match sp_combine(g, ids, assoc_ast, t, s1) {
                            Ok(q) => {
                                if !depth_fault(sp_reduce(g, ids, q, s1)) {
                                    lemma_mono_reduce(g, ids, q, s1, s2);
                                }
                            },
                            Err(_) => {},
                        }
                    }
                },
                Err(_) => {},
            }
        }
    }
}

/// A rewriting step that succeeded within some budget gives the same
/// answer under any larger budget.
pub proof fn lemma_mono_reduce(g: GraphV, ids: DesignatedIds, t: TreeV, f1: nat, f2: nat)
    requires
        f1 <= f2,
        !depth_fault(sp_reduce(g, ids, t, f1)),
    ensures
        sp_reduce(g, ids, t, f2) == sp_reduce(g, ids, t, f1),
    decreases f1,
{
    if f1 > 0 {
        let s1 = (f1 - 1) as nat;
        let s2 = (f2 - 1) as nat;
        match t.concept {
            Some(c) => {
                if !depth_fault(sp_reduce_concept(g, ids, c, s1)) {
                    lemma_mono_reduce_concept(g, ids, c, s1, s2);
                }
            },
            None => match t.pair {
                None => {},
                Some(p) => {
                    let l = *p.0;
                    let r = *p.1;
                    if l.concept == Some(ids.assoc_id) {
                        if !depth_fault(sp_concept_syntax(g, ids, ids.right_id, s1)) {
                            lemma_mono_concept_syntax(g, ids, ids.right_id, s1, s2);
                        }
                    } else {
                        match r.pair {
                            Some(q) => {
                                if (*q.0).concept == Some(ids.reduction_id) {
                                    if !depth_fault(
                                        sp_determine_reduction_truth(g, ids, l, *q.1, s1),
                                    ) {
                                        lemma_mono_determine_reduction_truth(
                                            g,
                                            ids,
                                            l,
                                            *q.1,
                                            s1,
                                            s2,
                                        );
                                        match sp_determine_reduction_truth(g, ids, l, *q.1, s1) {
                                            Ok(Some(true)) => {
                                                if !depth_fault(
                                                    sp_concept_syntax(g, ids, ids.true_id, s1),
                                                ) {
                                                    lemma_mono_concept_syntax(
                                                        g,
                                                        ids,
                                                        ids.true_id,
                                                        s1,
                                                        s2,
                                                    );
                                                }
                                            },
                                            Ok(Some(false)) => {
                                                if !depth_fault(
                                                    sp_concept_syntax(g, ids, ids.false_id, s1),
                                                ) {
                                                    lemma_mono_concept_syntax(
                                                        g,
                                                        ids,
                                                        ids.false_id,
                                                        s1,
                                                        s2,
                                                    );
                                                }
                                            },
                                            Ok(None) => {
                                                if !depth_fault(sp_reduce_pair(g, ids, l, r, s1)) {
                                                    lemma_mono_reduce_pair(g, ids, l, r, s1, s2);
                                                }
                                            },
                                            Err(_) => {},
                                        }
                                    }
                                } else {
                                    if !depth_fault(sp_reduce_pair(g, ids, l, r, s1)) {
                                        lemma_mono_reduce_pair(g, ids, l, r, s1, s2);
                                    }
                                }
                            },
                            None => {
                                if !depth_fault(sp_reduce_pair(g, ids, l, r, s1)) {
                                    lemma_mono_reduce_pair(g, ids, l, r, s1, s2);
                                }
                            },
                        }
                    }
                },
            },
        }
    }
}

/// A structural pair rewriting that succeeded within some budget gives
/// the same answer under any larger budget.
pub proof fn lemma_mono_reduce_pair(
    g: GraphV,
    ids: DesignatedIds,
    l: TreeV,
    r: TreeV,
    f1: nat,
    f2: nat,
)
    requires
        f1 <= f2,
        !depth_fault(sp_reduce_pair(g, ids, l, r, f1)),
    ensures
        sp_reduce_pair(g, ids, l, r, f2) == sp_reduce_pair(g, ids, l, r, f1),
    decreases f1,
{
    if f1 > 0 {
        let s1 = (f1 - 1) as nat;
        let s2 = (f2 - 1) as nat;
        if !depth_fault(sp_reduce(g, ids, l, s1)) {
            lemma_mono_reduce(g, ids, l, s1, s2);
            match sp_reduce(g, ids, l, s1) {
                Ok(lred) => {
                    if !depth_fault(sp_reduce(g, ids, r, s1)) {
                        lemma_mono_reduce(g, ids, r, s1, s2);
                        match sp_reduce(g, ids, r, s1) {
                            Ok(rred) => {
                                if !depth_fault(
                                    sp_match_left_right(g, ids, lred, rred, l, r, s1),
                                ) {
                                    lemma_mono_match_left_right(g, ids, lred, rred, l, r, s1, s2);
                                }
                            },
                            Err(_) => {},
                        }
                    }
                },
                Err(_) => {},
            }
        }
    }
}

/// A concept rewriting step that succeeded within some budget gives the
/// same answer under any larger budget.
pub proof fn lemma_mono_reduce_concept(g: GraphV, ids: DesignatedIds, c: usize, f1: nat, f2: nat)
    requires
        f1 <= f2,
        !depth_fault(sp_reduce_concept(g, ids, c, f1)),
    ensures
        sp_reduce_concept(g, ids, c, f2) == sp_reduce_concept(g, ids, c, f1),
    decreases f1,
{
    if f1 > 0 {
        let s1 = (f1 - 1) as nat;
        let s2 = (f2 - 1) as nat;
        match sp_read(g, c) {
            Ok(cv) => match cv.reduction {
                Some(n) => {
                    if !depth_fault(sp_concept_syntax(g, ids, n, s1)) {
                        lemma_mono_concept_syntax(g, ids, n, s1, s2);
                    }
                },
                None => match cv.definition {
                    None => {},
                    Some((l, r)) => {
                        if !depth_fault(sp_reduce_concept(g, ids, l, s1)) {
                            lemma_mono_reduce_concept(g, ids, l, s1, s2);
                            match sp_reduce_concept(g, ids, l, s1) {
                                Ok(lred) => {
                                    if !depth_fault(sp_reduce_concept(g, ids, r, s1)) {
                                        lemma_mono_reduce_concept(g, ids, r, s1, s2);
                                        match sp_reduce_concept(g, ids, r, s1) {
                                            Ok(rred) => {
                                                if !depth_fault(sp_concept_syntax(g, ids, l, s1)) {
                                                    lemma_mono_concept_syntax(g, ids, l, s1, s2);
                                                    match sp_concept_syntax(g, ids, l, s1) {
                                                        Ok(lt) => {
                                                            if !depth_fault(
                                                                sp_concept_syntax(g, ids, r, s1),
                                                            ) {
                                                                lemma_mono_concept_syntax(
                                                                    g,
                                                                    ids,
                                                                    r,
                                                                    s1,
                                                                    s2,
                                                                );
                                                                match sp_concept_syntax(
                                                                    g,
                                                                    ids,
                                                                    r,
                                                                    s1,
                                                                ) {
                                                                    Ok(rt) => {
                                                                        if !depth_fault(
                                                                            sp_match_left_right(
                                                                                g,
                                                                                ids,
                                                                                lred,
                                                                                rred,
                                                                                lt,
                                                                                rt,
                                                                                s1,
                                                                            ),
                                                                        ) {
                                                                            lemma_mono_match_left_right(
                                                                                g,
                                                                                ids,
                                                                                lred,
                                                                                rred,
                                                                                lt,
                                                                                rt,
                                                                                s1,
                                                                                s2,
                                                                            );
                                                                        }
                                                                    },
                                                                    Err(_) => {},
                                                                }
                                                            }
                                                        },
                                                        Err(_) => {},
                                                    }
                                                }
                                            },
                                            Err(_) => {},
                                        }
                                    }
                                },
                                Err(_) => {},
                            }
                        }
                    },
                },
            },
            Err(_) => {},
        }
    }
}

/// A fold of rewritten children that succeeded within some budget gives
/// the same answer under any larger budget.
pub proof fn lemma_mono_match_left_right(
    g: GraphV,
    ids: DesignatedIds,
    l: Option<TreeV>,
    r: Option<TreeV>,
    original_l: TreeV,
    original_r: TreeV,
    f1: nat,
    f2: nat,
)
    requires
        f1 <= f2,
        !depth_fault(sp_match_left_right(g, ids, l, r, original_l, original_r, f1)),
    ensures
        sp_match_left_right(g, ids, l, r, original_l, original_r, f2) == sp_match_left_right(
            g,
            ids,
            l,
            r,
            original_l,
            original_r,
            f1,
        ),
    decreases f1,
{
    if f1 > 0 {
        let s1 = (f1 - 1) as nat;
        let s2 = (f2 - 1) as nat;
        match (l, r) {
            (None, None) => {},
            (Some(nl), None) => {
                if !depth_fault(sp_contract_pair(g, ids, nl, original_r, s1)) {
                    lemma_mono_contract_pair(g, ids, nl, original_r, s1, s2);
                }
            },
            (None, Some(nr)) => {
                if !depth_fault(sp_contract_pair(g, ids, original_l, nr, s1)) {
                    lemma_mono_contract_pair(g, ids, original_l, nr, s1, s2);
                }
            },
            (Some(nl), Some(nr)) => {
                if !depth_fault(sp_contract_pair(g, ids, nl, nr, s1)) {
                    lemma_mono_contract_pair(g, ids, nl, nr, s1, s2);
                }
            },
        }
    }
}

/// A contraction that succeeded within some budget gives the same answer
/// under any larger budget.
pub proof fn lemma_mono_contract_pair(
    g: GraphV,
    ids: DesignatedIds,
    l: TreeV,
    r: TreeV,
    f1: nat,
    f2: nat,
)
    requires
        f1 <= f2,
        !depth_fault(sp_contract_pair(g, ids, l, r, f1)),
    ensures
        sp_contract_pair(g, ids, l, r, f2) == sp_contract_pair(g, ids, l, r, f1),
    decreases f1,
{
    if f1 > 0 {
        let s1 = (f1 - 1) as nat;
        let s2 = (f2 - 1) as nat;
        match (l.concept, r.concept) {
            (Some(lc), Some(rc)) => match sp_find_definition(g, lc, rc) {
                Ok(Some(def)) => {
                    if !depth_fault(sp_get_label(g, ids, def, s1)) {
                        lemma_mono_get_label(g, ids, def, s1, s2);
                        match sp_get_label(g, ids, def, s1) {
                            Ok(Some(_)) => {},
                            Ok(None) => {
                                if !depth_fault(sp_join(g, ids, l, r, s1)) {
                                    lemma_mono_join(g, ids, l, r, s1, s2);
                                }
                            },
                            Err(_) => {},
                        }
                    }
                },
                Ok(None) => {
                    if !depth_fault(sp_join(g, ids, l, r, s1)) {
                        lemma_mono_join(g, ids, l, r, s1, s2);
                    }
                },
                Err(_) => {},
            },
            _ => {
                if !depth_fault(sp_join(g, ids, l, r, s1)) {
                    lemma_mono_join(g, ids, l, r, s1, s2);
                }
            },
        }
    }
}

/// A settled rewriting truth stays the same under any larger budget.
pub proof fn lemma_mono_determine_reduction_truth(
    g: GraphV,
    ids: DesignatedIds,
    l: TreeV,
    r: TreeV,
    f1: nat,
    f2: nat,
)
    requires
        f1 <= f2,
        !depth_fault(sp_determine_reduction_truth(g, ids, l, r, f1)),
    ensures
        sp_determine_reduction_truth(g, ids, l, r, f2) == sp_determine_reduction_truth(
            g,
            ids,
            l,
            r,
            f1,
        ),
    decreases f1,
{
    if f1 > 0 && !tree_eq(l, r) {
        let s1 = (f1 - 1) as nat;
        let s2 = (f2 - 1) as nat;
        if !depth_fault(sp_determine_evidence_of_reduction(g, ids, l, r, s1)) {
            lemma_mono_determine_evidence(g, ids, l, r, s1, s2);
            match sp_determine_evidence_of_reduction(g, ids, l, r, s1) {
                Ok(None) => {
                    if !depth_fault(sp_determine_evidence_of_reduction(g, ids, r, l, s1)) {
                        lemma_mono_determine_evidence(g, ids, r, l, s1, s2);
                    }
                },
                _ => {},
            }
        }
    }
}

/// Settled evidence of a rewriting chain stays the same under any larger
/// budget.
pub proof fn lemma_mono_determine_evidence(
    g: GraphV,
    ids: DesignatedIds,
    l: TreeV,
    r: TreeV,
    f1: nat,
    f2: nat,
)
    requires
        f1 <= f2,
        !depth_fault(sp_determine_evidence_of_reduction(g, ids, l, r, f1)),
    ensures
        sp_determine_evidence_of_reduction(g, ids, l, r, f2)
            == sp_determine_evidence_of_reduction(g, ids, l, r, f1),
    decreases f1,
{
    if f1 > 0 {
        let s1 = (f1 - 1) as nat;
        let s2 = (f2 - 1) as nat;
        if !depth_fault(sp_reduce(g, ids, l, s1)) {
            lemma_mono_reduce(g, ids, l, s1, s2);
            match sp_reduce(g, ids, l, s1) {
                Ok(Some(lred)) => {
                    if !tree_eq(lred, r) {
                        if !depth_fault(sp_determine_evidence_of_reduction(g, ids, lred, r, s1)) {
                            lemma_mono_determine_evidence(g, ids, lred, r, s1, s2);
                        }
                    }
                },
                _ => {},
            }
        }
    }
}

/// A normal form found within some budget is found again under any
/// larger budget.
pub proof fn lemma_mono_recursively_reduce(
    g: GraphV,
    ids: DesignatedIds,
    t: TreeV,
    f1: nat,
    f2: nat,
)
    requires
        f1 <= f2,
        !depth_fault(sp_recursively_reduce(g, ids, t, f1)),
    ensures
        sp_recursively_reduce(g, ids, t, f2) == sp_recursively_reduce(g, ids, t, f1),
    decreases f1,
{
    if f1 > 0 {
        let s1 = (f1 - 1) as nat;
        let s2 = (f2 - 1) as nat;
        if !depth_fault(sp_reduce(g, ids, t, s1)) {
            lemma_mono_reduce(g, ids, t, s1, s2);
            match sp_reduce(g, ids, t, s1) {
                Ok(Some(next)) => {
                    if !depth_fault(sp_recursively_reduce(g, ids, next, s1)) {
                        lemma_mono_recursively_reduce(g, ids, next, s1, s2);
                    }
                },
                _ => {},
            }
        }
    }
}

/// Searching for a normal form is idempotent: rewriting the normal form
/// of an expression to a fixed point again, under the same budget, gives
/// that normal form back unchanged.
pub proof fn lemma_recursively_reduce_idempotent(
    g: GraphV,
    ids: DesignatedIds,
    t: TreeV,
    u: TreeV,
    fuel: nat,
)
    requires
        sp_recursively_reduce(g, ids, t, fuel) == Ok::<TreeV, ZiaError>(u),
    ensures
        sp_recursively_reduce(g, ids, u, fuel) == Ok::<TreeV, ZiaError>(u),
    decreases fuel,
{
    match sp_reduce(g, ids, t, (fuel - 1) as nat) {
        Ok(None) => {},
        Ok(Some(next)) => {
            lemma_recursively_reduce_idempotent(g, ids, next, u, (fuel - 1) as nat);
            lemma_mono_recursively_reduce(g, ids, u, (fuel - 1) as nat, fuel);
        },
        Err(_) => {},
    }
}

/// Comparing an expression with itself is `EqualTo`.
pub proof fn lemma_compare_reflexive(g: GraphV, ids: DesignatedIds, a: TreeV, fuel: nat)
    requires
        fuel >= 1,
    ensures
        sp_compare(g, ids, a, a, fuel) == Ok::<Comparison, ZiaError>(Comparison::EqualTo),
{
    lemma_tree_eq_reflexive(a);
}

/// Where one expression compares strictly greater than another, and the
/// graph holds no fact of its own about the mirrored query, the mirrored
/// comparison is strictly less. (A graph asserting both "`a` greater than
/// `b`" and a truth value for "`b` greater than `a`" decides the mirrored
/// comparison by that second fact instead.)
pub proof fn lemma_compare_antisymmetric(
    g: GraphV,
    ids: DesignatedIds,
    a: TreeV,
    b: TreeV,
    fuel: nat,
)
    requires
        sp_compare(g, ids, a, b, fuel) == Ok::<Comparison, ZiaError>(Comparison::GreaterThan),
        fuel >= 1 ==> sp_greater_than_query(g, ids, b, a, (fuel - 1) as nat) == Ok::<
            Option<bool>,
            ZiaError,
        >(None),
    ensures
        sp_compare(g, ids, b, a, fuel) == Ok::<Comparison, ZiaError>(Comparison::LessThan),
{
    lemma_tree_eq_symmetric(a, b);
}

} // verus!
