use zia::ast::SyntaxTree;
use zia::concepts::{Concept, SpecificPart};
use zia::context_search::ContextSearch;
use zia::deltas::Delta;
use zia::reading::{
    Associativity, Container, FindDefinition, GetConceptOfLabel, GetLabel, Label, ZiaError,
};
use zia::snapshot::{DesignatedIds, Snapshot};

fn plain_ids() -> DesignatedIds {
    DesignatedIds {
        label_id: 90,
        true_id: 91,
        false_id: 92,
        reduction_id: 93,
        assoc_id: 94,
        left_id: 95,
        right_id: 96,
        precedence_id: 97,
        greater_than_id: 98,
        exists_such_that_id: 99,
        implication_id: 89,
    }
}

#[test]
fn composition_renders_as_combination() {
    let mut a = Concept::new(0, SpecificPart::Concrete);
    let mut b = Concept::new(1, SpecificPart::Concrete);
    let ab = Concept::composition_of(2, &mut a, &mut b);
    let snapshot = Snapshot {
        concepts: vec![Some(a), Some(b), Some(ab)],
        labels: vec![(0, "a".to_string()), (1, "b".to_string())],
    };
    let deltas: Vec<Delta> = Vec::new();
    let search = ContextSearch::new(&snapshot, &deltas, plain_ids(), 32);
    let composite = search.to_ast(2).unwrap();
    let left = search.to_ast(0).unwrap();
    let right = search.to_ast(1).unwrap();
    let combined = search.combine(&left, &right).unwrap();
    assert_eq!(composite, combined);
    assert_eq!(combined.display_string().as_str(), "a b");
    assert_eq!(search.expand(&SyntaxTree::new_concept(2)).unwrap(), combined);
}

#[test]
fn normal_form_search_is_idempotent() {
    let mut z = Concept::new(0, SpecificPart::Concrete);
    let mut y = Concept::new(1, SpecificPart::Abstract);
    let mut x = Concept::new(2, SpecificPart::Abstract);
    y.make_reduce_to(&mut z);
    x.make_reduce_to(&mut y);
    let snapshot = Snapshot {
        concepts: vec![Some(z), Some(y), Some(x)],
        labels: vec![(0, "z".to_string()), (1, "y".to_string()), (2, "x".to_string())],
    };
    let deltas: Vec<Delta> = Vec::new();
    let mut search = ContextSearch::new(&snapshot, &deltas, plain_ids(), 32);
    let start = SyntaxTree::new_concept(2);
    let once = search.recursively_reduce(&start).unwrap();
    let twice = search.recursively_reduce(&once).unwrap();
    assert_eq!(once, twice);
    assert_eq!(once.get_concept(), Some(0));
    assert_eq!(search.reduce(&start).unwrap().unwrap().get_concept(), Some(1));
}

#[test]
fn normal_forms_do_not_step() {
    let a = Concept::new(0, SpecificPart::Concrete);
    let b = Concept::new(1, SpecificPart::Concrete);
    let snapshot = Snapshot {
        concepts: vec![Some(a), Some(b)],
        labels: vec![(0, "a".to_string()), (1, "b".to_string())],
    };
    let deltas: Vec<Delta> = Vec::new();
    let mut search = ContextSearch::new(&snapshot, &deltas, plain_ids(), 32);
    assert_eq!(search.reduce(&SyntaxTree::new_concept(0)).unwrap(), None);
    assert_eq!(search.reduce(&SyntaxTree::from_symbol("free")).unwrap(), None);
    let pair = search
        .combine(
            &search.to_ast(0).unwrap(),
            &search.to_ast(1).unwrap(),
        )
        .unwrap();
    assert_eq!(search.reduce(&pair).unwrap(), None);
}

#[test]
fn contraction_binds_an_unlabelled_composite() {
    let mut a = Concept::new(0, SpecificPart::Concrete);
    let mut b = Concept::new(1, SpecificPart::Concrete);
    let ab = Concept::composition_of(2, &mut a, &mut b);
    let snapshot = Snapshot {
        concepts: vec![Some(a), Some(b), Some(ab)],
        labels: vec![(0, "a".to_string()), (1, "b".to_string())],
    };
    let deltas: Vec<Delta> = Vec::new();
    let search = ContextSearch::new(&snapshot, &deltas, plain_ids(), 32);
    let left = search.to_ast(0).unwrap();
    let right = search.to_ast(1).unwrap();
    // The composite exists but carries no label: the contraction is still
    // bound to it, and the joint display is the fallback text.
    let contracted = search.contract_pair(&left, &right).unwrap();
    assert_eq!(contracted.get_concept(), Some(2));
    assert_eq!(contracted.display_string().as_str(), "a b");

    // With a label on the composite, the label supplies the display text.
    let labelled = Snapshot {
        concepts: snapshot.concepts,
        labels: vec![
            (0, "a".to_string()),
            (1, "b".to_string()),
            (2, "ab".to_string()),
        ],
    };
    let search2 = ContextSearch::new(&labelled, &deltas, plain_ids(), 32);
    let contracted2 = search2
        .contract_pair(&search2.to_ast(0).unwrap(), &search2.to_ast(1).unwrap())
        .unwrap();
    assert_eq!(contracted2.get_concept(), Some(2));
    assert_eq!(contracted2.display_string().as_str(), "ab");
}

#[test]
fn ambiguous_label_candidates_are_a_fault() {
    // Two compositions both pair the label relation with concept 1: a
    // broken uniqueness invariant that label resolution must report.
    let mut label_relation = Concept::new(0, SpecificPart::Concrete);
    let mut target = Concept::new(1, SpecificPart::Abstract);
    let pairing_one = Concept::composition_of(2, &mut label_relation, &mut target);
    let pairing_two = Concept::composition_of(3, &mut label_relation, &mut target);
    let snapshot = Snapshot {
        concepts: vec![
            Some(label_relation),
            Some(target),
            Some(pairing_one),
            Some(pairing_two),
        ],
        labels: Vec::new(),
    };
    let deltas: Vec<Delta> = Vec::new();
    let mut ids = plain_ids();
    ids.label_id = 0;
    assert_eq!(
        snapshot.get_concept_of_label(&deltas, &ids, 1),
        Err(ZiaError::AmbiguousDefinition)
    );
    assert_eq!(
        snapshot.get_label(&deltas, &ids, 1, 32),
        Err(ZiaError::AmbiguousDefinition)
    );
}

#[test]
fn definition_lookup_is_exact() {
    let mut a = Concept::new(0, SpecificPart::Concrete);
    let mut b = Concept::new(1, SpecificPart::Concrete);
    let ab = Concept::composition_of(2, &mut a, &mut b);
    let snapshot = Snapshot {
        concepts: vec![Some(a), Some(b), Some(ab)],
        labels: Vec::new(),
    };
    let deltas: Vec<Delta> = Vec::new();
    assert_eq!(snapshot.find_definition(&deltas, 0, 1).unwrap(), Some(2));
    assert_eq!(snapshot.find_definition(&deltas, 1, 0).unwrap(), None);

    let mut a2 = Concept::new(0, SpecificPart::Concrete);
    let mut b2 = Concept::new(1, SpecificPart::Concrete);
    let first = Concept::composition_of(2, &mut a2, &mut b2);
    let second = Concept::composition_of(3, &mut a2, &mut b2);
    let broken = Snapshot {
        concepts: vec![Some(a2), Some(b2), Some(first), Some(second)],
        labels: Vec::new(),
    };
    assert_eq!(
        broken.find_definition(&deltas, 0, 1),
        Err(ZiaError::AmbiguousDefinition)
    );
}

#[test]
fn faults_are_reported() {
    let unnameable = Concept::new(0, SpecificPart::Abstract);
    let snapshot = Snapshot { concepts: vec![Some(unnameable)], labels: Vec::new() };
    let deltas: Vec<Delta> = Vec::new();
    let search = ContextSearch::new(&snapshot, &deltas, plain_ids(), 32);
    assert_eq!(search.to_ast(0), Err(ZiaError::MissingDefinition));
    assert_eq!(search.to_ast(99), Err(ZiaError::UnknownConcept));

    let mut starved = ContextSearch::new(&snapshot, &deltas, plain_ids(), 0);
    assert_eq!(
        starved.reduce(&SyntaxTree::new_concept(0)),
        Err(ZiaError::DepthLimitReached)
    );
}

#[test]
fn unresolved_associativity_is_a_fault() {
    let mut assoc = Concept::new(0, SpecificPart::Concrete);
    let mut y = Concept::new(1, SpecificPart::Concrete);
    let assoc_of_y = Concept::composition_of(2, &mut assoc, &mut y);
    let z = Concept::new(3, SpecificPart::Concrete);
    let x = Concept::new(4, SpecificPart::Concrete);
    let snapshot = Snapshot {
        concepts: vec![Some(assoc), Some(y), Some(assoc_of_y), Some(z), Some(x)],
        labels: vec![
            (1, "y".to_string()),
            (3, "z".to_string()),
            (4, "x".to_string()),
        ],
    };
    let deltas: Vec<Delta> = Vec::new();
    let mut ids = plain_ids();
    ids.assoc_id = 0;
    let search = ContextSearch::new(&snapshot, &deltas, ids, 32);
    let y_leaf = search.to_ast(1).unwrap();
    let z_leaf = search.to_ast(3).unwrap();
    let x_leaf = search.to_ast(4).unwrap();
    assert_eq!(search.get_associativity(&y_leaf).unwrap(), None);
    let pair = search.combine(&y_leaf, &z_leaf).unwrap();
    assert_eq!(
        search.display_joint(&x_leaf, &pair),
        Err(ZiaError::UnresolvedAssociativity)
    );
}

#[test]
fn associativity_defaults_to_the_right_identity() {
    let assoc = Concept::new(0, SpecificPart::Concrete);
    let right = Concept::new(1, SpecificPart::Concrete);
    let operand = Concept::new(2, SpecificPart::Concrete);
    let snapshot = Snapshot {
        concepts: vec![Some(assoc), Some(right), Some(operand)],
        labels: vec![(2, "w".to_string())],
    };
    let deltas: Vec<Delta> = Vec::new();
    let mut ids = plain_ids();
    ids.assoc_id = 0;
    ids.right_id = 1;
    let search = ContextSearch::new(&snapshot, &deltas, ids, 32);
    let w = search.to_ast(2).unwrap();
    assert_eq!(
        search.get_associativity(&w).unwrap(),
        Some(Associativity::Right)
    );
}

#[test]
fn labels_resolve_through_the_label_relation() {
    // Concept 1 is labelled "named" through the label relation: the
    // composition (label, 1) reduces to the text concept.
    let mut label_relation = Concept::new(0, SpecificPart::Concrete);
    let mut target = Concept::new(1, SpecificPart::Abstract);
    let mut pairing = Concept::composition_of(2, &mut label_relation, &mut target);
    let mut text = Concept::new(3, SpecificPart::Text("named".to_string()));
    pairing.make_reduce_to(&mut text);
    let mut follower = Concept::new(4, SpecificPart::Abstract);
    follower.make_reduce_to(&mut target);
    let snapshot = Snapshot {
        concepts: vec![
            Some(label_relation),
            Some(target),
            Some(pairing),
            Some(text),
            Some(follower),
        ],
        labels: Vec::new(),
    };
    let deltas: Vec<Delta> = Vec::new();
    let mut ids = plain_ids();
    ids.label_id = 0;
    assert_eq!(
        snapshot.get_label(&deltas, &ids, 1, 32).unwrap(),
        Some("named".to_string())
    );
    // A concept that reduces to a labelled concept inherits its name.
    assert_eq!(
        snapshot.get_label(&deltas, &ids, 4, 32).unwrap(),
        Some("named".to_string())
    );
    // The text concept names exactly one labellee.
    assert_eq!(snapshot.get_labellee(&deltas, &ids, 3, 32).unwrap(), Some(1));
    let search = ContextSearch::new(&snapshot, &deltas, ids, 32);
    let rendered = search.to_ast(1).unwrap();
    assert_eq!(rendered.get_concept(), Some(1));
    assert_eq!(rendered.display_string().as_str(), "named");
}

#[test]
fn ambiguous_labelling_is_a_fault() {
    let mut label_relation = Concept::new(0, SpecificPart::Concrete);
    let mut first = Concept::new(1, SpecificPart::Abstract);
    let mut second = Concept::new(2, SpecificPart::Abstract);
    let mut pairing_one = Concept::composition_of(3, &mut label_relation, &mut first);
    let mut pairing_two = Concept::composition_of(4, &mut label_relation, &mut second);
    let mut text = Concept::new(5, SpecificPart::Text("shared".to_string()));
    pairing_one.make_reduce_to(&mut text);
    pairing_two.make_reduce_to(&mut text);
    let snapshot = Snapshot {
        concepts: vec![
            Some(label_relation),
            Some(first),
            Some(second),
            Some(pairing_one),
            Some(pairing_two),
            Some(text),
        ],
        labels: Vec::new(),
    };
    let deltas: Vec<Delta> = Vec::new();
    let mut ids = plain_ids();
    ids.label_id = 0;
    assert_eq!(
        snapshot.get_labellee(&deltas, &ids, 5, 32),
        Err(ZiaError::AmbiguousLabel)
    );
}

#[test]
fn containment_follows_definitions() {
    let mut a = Concept::new(0, SpecificPart::Concrete);
    let mut b = Concept::new(1, SpecificPart::Concrete);
    let mut ab = Concept::composition_of(2, &mut a, &mut b);
    let mut c = Concept::new(3, SpecificPart::Concrete);
    let abc = Concept::composition_of(4, &mut ab, &mut c);
    let snapshot = Snapshot {
        concepts: vec![Some(a), Some(b), Some(ab), Some(c), Some(abc)],
        labels: Vec::new(),
    };
    let deltas: Vec<Delta> = Vec::new();
    assert!(snapshot.contains(&deltas, 4, 0, 16).unwrap());
    assert!(snapshot.contains(&deltas, 4, 2, 16).unwrap());
    assert!(!snapshot.contains(&deltas, 2, 3, 16).unwrap());
    assert!(!snapshot.contains(&deltas, 0, 4, 16).unwrap());
}

#[test]
fn precedence_reads_off_the_rewriting_relation() {
    // "left has higher precedence than right" is encoded exactly like the
    // comparison fixture, with the precedence concept in place of the
    // greater-than concept.
    let mut precedence = Concept::new(0, SpecificPart::Concrete);
    let mut left_op = Concept::new(1, SpecificPart::Abstract);
    let mut right_op = Concept::new(2, SpecificPart::Abstract);
    let mut prec_of_right = Concept::composition_of(3, &mut precedence, &mut right_op);
    let mut query = Concept::composition_of(4, &mut left_op, &mut prec_of_right);
    let mut truth = Concept::new(5, SpecificPart::Concrete);
    query.make_reduce_to(&mut truth);
    let assoc = Concept::new(6, SpecificPart::Concrete);
    let right_identity = Concept::new(7, SpecificPart::Concrete);
    let snapshot = Snapshot {
        concepts: vec![
            Some(precedence),
            Some(left_op),
            Some(right_op),
            Some(prec_of_right),
            Some(query),
            Some(truth),
            Some(assoc),
            Some(right_identity),
        ],
        labels: Vec::new(),
    };
    let deltas: Vec<Delta> = Vec::new();
    let mut ids = plain_ids();
    ids.precedence_id = 0;
    ids.true_id = 5;
    ids.assoc_id = 6;
    ids.right_id = 7;
    let search = ContextSearch::new(&snapshot, &deltas, ids, 64);
    assert_eq!(
        search
            .has_higher_precedence(&SyntaxTree::new_concept(1), &SyntaxTree::new_concept(2))
            .unwrap(),
        Some(true)
    );
}
