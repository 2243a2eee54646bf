use zia::ast::SyntaxTree;
use zia::concepts::{Concept, SpecificPart};
use zia::context_search::ContextSearch;
use zia::deltas::Delta;
use zia::reading::Comparison;
use zia::snapshot::{DesignatedIds, Snapshot};

const CONCEPT_LEN: usize = 11;

fn check_order(concepts: Vec<Concept>) -> Vec<Option<Concept>> {
    let mut out = Vec::new();
    for (i, c) in concepts.into_iter().enumerate() {
        assert_eq!(c.get_id(), i);
        out.push(Some(c));
    }
    out
}

fn comparison_snapshot() -> Snapshot {
    let mut greater_than_concept = Concept::new(0, SpecificPart::Concrete);
    let mut left_concept = Concept::new(1, SpecificPart::Abstract);
    let mut right_concept = Concept::new(2, SpecificPart::Abstract);
    let mut is_greater_than_right_concept =
        Concept::composition_of(3, &mut greater_than_concept, &mut right_concept);
    let mut left_is_greater_than_right_concept =
        Concept::composition_of(4, &mut left_concept, &mut is_greater_than_right_concept);
    let mut true_concept = Concept::new(5, SpecificPart::Concrete);
    left_is_greater_than_right_concept.make_reduce_to(&mut true_concept);
    let assoc_concept = Concept::new(6, SpecificPart::Concrete);
    let right_id_concept = Concept::new(7, SpecificPart::Concrete);
    let mut another_concept = Concept::new(8, SpecificPart::Abstract);
    let mut another_concept_is_greater_than_right_concept =
        Concept::composition_of(9, &mut another_concept, &mut is_greater_than_right_concept);
    let mut false_concept = Concept::new(10, SpecificPart::Concrete);
    another_concept_is_greater_than_right_concept.make_reduce_to(&mut false_concept);
    let concepts = vec![
        greater_than_concept,
        left_concept,
        right_concept,
        is_greater_than_right_concept,
        left_is_greater_than_right_concept,
        true_concept,
        assoc_concept,
        right_id_concept,
        another_concept,
        another_concept_is_greater_than_right_concept,
        false_concept,
    ];
    Snapshot { concepts: check_order(concepts), labels: Vec::new() }
}

fn comparison_ids() -> DesignatedIds {
    DesignatedIds {
        label_id: CONCEPT_LEN + 5,
        true_id: 5,
        false_id: 10,
        reduction_id: CONCEPT_LEN + 2,
        assoc_id: 6,
        left_id: CONCEPT_LEN,
        right_id: 7,
        precedence_id: CONCEPT_LEN + 1,
        greater_than_id: 0,
        exists_such_that_id: CONCEPT_LEN + 3,
        implication_id: CONCEPT_LEN + 4,
    }
}

#[test]
fn basic_comparison() {
    let snapshot = comparison_snapshot();
    let deltas: Vec<Delta> = Vec::new();
    let context_search = ContextSearch::new(&snapshot, &deltas, comparison_ids(), 64);
    let left_syntax = || SyntaxTree::new_concept(1);
    let right_syntax = || SyntaxTree::new_concept(2);
    let another_syntax = || SyntaxTree::new_concept(8);

    assert_eq!(
        context_search.compare(&left_syntax(), &right_syntax()).unwrap(),
        Comparison::GreaterThan
    );

    assert_eq!(
        context_search.compare(&right_syntax(), &left_syntax()).unwrap(),
        Comparison::LessThan
    );

    assert_eq!(
        context_search.compare(&left_syntax(), &left_syntax()).unwrap(),
        Comparison::EqualTo
    );

    assert_eq!(
        context_search.compare(&another_syntax(), &right_syntax()).unwrap(),
        Comparison::LessThanOrEqualTo
    );

    assert_eq!(
        context_search.compare(&right_syntax(), &another_syntax()).unwrap(),
        Comparison::GreaterThanOrEqualTo
    );

    assert_eq!(
        context_search.compare(&left_syntax(), &another_syntax()).unwrap(),
        Comparison::Incomparable
    )
}
