use zia::concepts::{Concept, SpecificPart};
use zia::deltas::Delta;
use zia::reading::{FindWhatItsANormalFormOf, ZiaError};
use zia::removing::{
    BlindConceptRemover, BlindConceptRemoverDelta, DefinitionDeleter, StringRemover,
    StringRemoverDelta,
};
use zia::snapshot::{ConceptReader, DesignatedIds, Snapshot};

fn removal_ids() -> DesignatedIds {
    DesignatedIds {
        label_id: 90,
        true_id: 91,
        false_id: 92,
        reduction_id: 93,
        assoc_id: 94,
        left_id: 95,
        right_id: 96,
        precedence_id: 97,
        greater_than_id: 98,
        exists_such_that_id: 99,
        implication_id: 89,
    }
}

fn composite_snapshot() -> Snapshot {
    let mut a = Concept::new(0, SpecificPart::Concrete);
    let mut b = Concept::new(1, SpecificPart::Concrete);
    let ab = Concept::composition_of(2, &mut a, &mut b);
    Snapshot {
        concepts: vec![Some(a), Some(b), Some(ab)],
        labels: vec![(0, "a".to_string()), (1, "b".to_string()), (2, "ab".to_string())],
    }
}

#[test]
fn clean_deletion_collects_the_disconnected() {
    let snapshot = composite_snapshot();
    let ids = removal_ids();
    let mut delta = Delta::new();
    snapshot
        .cleanly_delete_definition(&mut delta, &ids, 2)
        .unwrap();
    // The composite and both operands, each connected only through the
    // deleted composition, are gone, and none of their labels resolves.
    assert!(snapshot.read_with(&delta, 2).is_none());
    assert!(snapshot.read_with(&delta, 0).is_none());
    assert!(snapshot.read_with(&delta, 1).is_none());
    assert!(snapshot.label_with(&delta, 2).is_none());
    assert!(snapshot.label_with(&delta, 0).is_none());
    assert!(snapshot.label_with(&delta, 1).is_none());
    // The committed graph is untouched until the delta is applied.
    let empty: Vec<Delta> = Vec::new();
    assert!(snapshot.read_concept(&empty, 2).is_some());
}

#[test]
fn deleting_no_definition_is_redundant() {
    let snapshot = composite_snapshot();
    let ids = removal_ids();
    let mut delta = Delta::new();
    assert_eq!(
        snapshot.cleanly_delete_definition(&mut delta, &ids, 0),
        Err(ZiaError::RedundantDefinitionRemoval)
    );
    assert_eq!(delta.concepts.len(), 0);
    assert_eq!(delta.labels.len(), 0);
}

#[test]
fn connected_concepts_survive_collection() {
    let snapshot = composite_snapshot();
    let ids = removal_ids();
    let mut delta = Delta::new();
    // Operand 0 still composes the live concept 2, so it is left intact.
    snapshot.try_delete_concept(&mut delta, &ids, 0).unwrap();
    assert!(snapshot.read_with(&delta, 0).is_some());
}

#[test]
fn delta_overrides_the_committed_graph() {
    let snapshot = composite_snapshot();
    let mut delta = Delta::new();
    delta.write_concept(7, Concept::new(7, SpecificPart::Abstract));
    delta.remove_concept(0);
    delta.set_label(7, "new".to_string());
    delta.unset_label(1);
    let chain = vec![delta];
    assert_eq!(snapshot.read_concept(&chain, 7).unwrap().get_id(), 7);
    assert!(snapshot.read_concept(&chain, 0).is_none());
    assert_eq!(snapshot.stored_label(&chain, 7), Some("new".to_string()));
    assert_eq!(snapshot.stored_label(&chain, 1), None);
    assert_eq!(snapshot.stored_label(&chain, 2), Some("ab".to_string()));
    assert_eq!(snapshot.concept_from_label(&chain, "new"), Some(7));
    assert_eq!(snapshot.concept_from_label(&chain, "b"), None);
}

#[test]
fn delta_composition_applies_in_order() {
    let snapshot = composite_snapshot();
    let mut first = Delta::new();
    first.write_concept(7, Concept::new(7, SpecificPart::Abstract));
    first.set_label(7, "old".to_string());
    let mut second = Delta::new();
    second.set_label(7, "new".to_string());
    let chain = vec![first.combine(second)];
    assert_eq!(snapshot.stored_label(&chain, 7), Some("new".to_string()));
    assert_eq!(snapshot.read_concept(&chain, 7).unwrap().get_id(), 7);
}

#[test]
fn committed_removal_is_immediate() {
    let mut snapshot = composite_snapshot();
    snapshot.blindly_remove_concept(1);
    snapshot.remove_string("a");
    let empty: Vec<Delta> = Vec::new();
    assert!(snapshot.read_concept(&empty, 1).is_none());
    assert!(snapshot.read_concept(&empty, 2).is_some());
    assert_eq!(snapshot.stored_label(&empty, 0), None);
    assert_eq!(snapshot.stored_label(&empty, 2), Some("ab".to_string()));
}

#[test]
fn delta_removers_record_edits() {
    let snapshot = composite_snapshot();
    let mut delta = Delta::new();
    snapshot.blindly_remove_concept_delta(&mut delta, 1);
    snapshot.remove_string_delta(&mut delta, "ab");
    assert!(snapshot.read_with(&delta, 1).is_none());
    assert!(snapshot.label_with(&delta, 2).is_none());
    assert_eq!(snapshot.label_with(&delta, 0), Some("a".to_string()));
}

#[test]
fn allocation_skips_occupied_ids() {
    let snapshot = composite_snapshot();
    let empty: Vec<Delta> = Vec::new();
    assert_eq!(snapshot.lowest_unoccupied_concept_id(&empty), 3);
    let mut delta = Delta::new();
    delta.write_concept(3, Concept::new(3, SpecificPart::Abstract));
    let chain = vec![delta];
    assert_eq!(snapshot.lowest_unoccupied_concept_id(&chain), 4);
}

#[test]
fn everything_that_rewrites_to_a_concept_is_found() {
    let mut z = Concept::new(0, SpecificPart::Concrete);
    let mut y = Concept::new(1, SpecificPart::Abstract);
    let mut x = Concept::new(2, SpecificPart::Abstract);
    y.make_reduce_to(&mut z);
    x.make_reduce_to(&mut y);
    let snapshot = Snapshot { concepts: vec![Some(z), Some(y), Some(x)], labels: Vec::new() };
    let empty: Vec<Delta> = Vec::new();
    let mut sources = snapshot
        .find_what_its_a_normal_form_of(&empty, 0, 16)
        .unwrap();
    sources.sort();
    assert_eq!(sources, vec![1, 2]);
    assert_eq!(
        snapshot.find_what_its_a_normal_form_of(&empty, 2, 16).unwrap(),
        Vec::<usize>::new()
    );
}
