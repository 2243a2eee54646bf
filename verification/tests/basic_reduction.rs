use zia::ast::{BindConcept, SyntaxTree};
use zia::concepts::{Concept, SpecificPart};
use zia::context_search::ContextSearch;
use zia::deltas::Delta;
use zia::snapshot::{DesignatedIds, Snapshot};

fn reduction_snapshot() -> Snapshot {
    let mut concrete_concept = Concept::new(0, SpecificPart::Concrete);
    let mut abstract_concept = Concept::new(1, SpecificPart::Abstract);
    abstract_concept.make_reduce_to(&mut concrete_concept);
    Snapshot {
        concepts: vec![Some(concrete_concept), Some(abstract_concept)],
        labels: vec![(0, "concrete".to_string()), (1, "abstract".to_string())],
    }
}

fn reduction_ids() -> DesignatedIds {
    DesignatedIds {
        label_id: 100,
        true_id: 101,
        false_id: 102,
        reduction_id: 103,
        assoc_id: 104,
        left_id: 105,
        right_id: 106,
        precedence_id: 107,
        greater_than_id: 108,
        exists_such_that_id: 109,
        implication_id: 110,
    }
}

#[test]
fn basic_reduction() {
    let snapshot = reduction_snapshot();
    let deltas: Vec<Delta> = Vec::new();
    let mut context_search = ContextSearch::new(&snapshot, &deltas, reduction_ids(), 64);
    let abstract_syntax = SyntaxTree::from_symbol("abstract").bind_concept(1);
    let concrete_syntax = SyntaxTree::from_symbol("concrete").bind_concept(0);

    assert_eq!(
        context_search.recursively_reduce(&abstract_syntax).unwrap(),
        concrete_syntax
    );
    assert_eq!(
        context_search.recursively_reduce(&concrete_syntax).unwrap(),
        concrete_syntax
    );

    assert_eq!(
        context_search.reduce(&abstract_syntax).unwrap(),
        Some(concrete_syntax.clone())
    );
    assert_eq!(context_search.reduce(&concrete_syntax).unwrap(), None);

    assert_eq!(
        context_search.ast_from_expression("abstract").unwrap(),
        abstract_syntax
    );
    assert_eq!(
        context_search.ast_from_expression("concrete").unwrap(),
        concrete_syntax
    );

    assert_eq!(
        context_search.expand(&abstract_syntax).unwrap(),
        abstract_syntax
    );
    assert_eq!(
        context_search.expand(&concrete_syntax).unwrap(),
        concrete_syntax
    );

    assert_eq!(context_search.to_ast(0).unwrap(), concrete_syntax);
    assert_eq!(context_search.to_ast(1).unwrap(), abstract_syntax);
}
