use moonshine_core::{
    distill_items, first_touched_targets, isolated_items,
    reset_items_for_reembed, reset_items_for_reextract, settle_items, Edge, EdgeOrigin, EdgeTable,
    ExtractedRelation, Item, RelationCandidate, Status,
};

fn item(id: &str, status: Status, embedding: Option<Vec<u8>>) -> Item {
    Item {
        id: id.to_string(),
        summary: format!("summary of {}", id),
        context: String::new(),
        memo: String::new(),
        status,
        embedding,
        updated_at: 0,
    }
}

fn rel(s: &str, t: &str, label: &str, c: i64) -> ExtractedRelation {
    ExtractedRelation {
        source_id: s.into(),
        target_id: t.into(),
        relation: label.into(),
        confidence: c,
    }
}

fn human(s: &str, t: &str) -> Edge {
    Edge {
        source_id: s.into(),
        target_id: t.into(),
        relation_type: "RELATED_TO".into(),
        origin: EdgeOrigin::Human,
        confidence: 1_000_000,
        created_at: 1,
        updated_at: 1,
    }
}

#[test]
fn distill_advances_queued_and_forced_items() {
    let items = vec![
        item("q", Status::Queued, None),
        item("f", Status::ForceReembed, None),
        item("miss", Status::Queued, None),
        item("raw", Status::Raw, None),
    ];
    let vectors = vec![Some(vec![1u8, 2, 3, 4]), Some(vec![5, 6, 7, 8]), None, Some(vec![9; 4])];
    let (out, count) = distill_items(&items, &vectors, 42);
    assert_eq!(count, 2);
    assert_eq!(out[0].status, Status::EmbeddedPendingLink);
    assert_eq!(out[0].embedding, Some(vec![1, 2, 3, 4]));
    assert_eq!(out[0].updated_at, 42);
    assert_eq!(out[1].status, Status::Settled);
    assert_eq!(out[1].embedding, Some(vec![5, 6, 7, 8]));
    assert_eq!(out[2].status, Status::Queued);
    assert_eq!(out[2].updated_at, 0);
    assert_eq!(out[3].status, Status::Raw);
    assert_eq!(out[3].embedding, None);
}

#[test]
fn distill_short_answer_leaves_the_rest_untouched() {
    let items = vec![item("a", Status::Queued, None), item("b", Status::Queued, None)];
    let (out, count) = distill_items(&items, &vec![Some(vec![1, 1, 1, 1])], 5);
    assert_eq!(count, 1);
    assert_eq!(out[1].status, Status::Queued);
}

#[test]
fn no_linked_item_without_a_vector() {
    let bare = item("x", Status::Queued, None);
    assert!(bare.set_status(Status::Settled, 1).is_err());
    assert!(bare.set_status(Status::EmbeddedPendingLink, 1).is_err());
    assert!(bare.set_status(Status::ForceReextract, 1).is_err());
    assert_eq!(bare.set_status(Status::Raw, 1).unwrap().status, Status::Raw);
    let with = item("y", Status::Queued, Some(vec![0; 4]));
    assert_eq!(with.set_status(Status::Settled, 1).unwrap().status, Status::Settled);
    let reset = item("z", Status::Settled, Some(vec![0; 4])).reset_for_reembed(2);
    assert_eq!(reset.status, Status::ForceReembed);
    assert_eq!(reset.embedding, None);
    let (after, _) = distill_items(&vec![reset], &vec![None], 3);
    assert_eq!(after[0].status, Status::ForceReembed);
}

#[test]
fn provider_switch_reembeds_ten_settled_items_and_keeps_human_edges() {
    let items: Vec<Item> =
        (0..10).map(|i| item(&format!("m{}", i), Status::Settled, Some(vec![1, 0, 0, 0]))).collect();
    let mut table = EdgeTable::new();
    table.add_edge(human("m0", "m1"));
    table.add_edge(human("m2", "m3"));
    let (reset, count) = reset_items_for_reembed(&items, 100);
    assert_eq!(count, 10);
    assert!(reset.iter().all(|i| i.status == Status::ForceReembed && i.embedding.is_none()));
    let fresh: Vec<Option<Vec<u8>>> = (0..10).map(|i| Some(vec![i as u8, 0, 0, 64])).collect();
    let (after, advanced) = distill_items(&reset, &fresh, 200);
    assert_eq!(advanced, 10);
    for (i, it) in after.iter().enumerate() {
        assert_eq!(it.status, Status::Settled);
        assert_eq!(it.embedding, Some(vec![i as u8, 0, 0, 64]));
    }
    assert_eq!(table.len(), 2);
    assert!(table.get(0).origin == EdgeOrigin::Human && table.get(1).origin == EdgeOrigin::Human);
}

#[test]
fn reinserting_same_edge_updates_in_place() {
    let mut table = EdgeTable::new();
    assert!(table.upsert_inferred(&rel("a", "b", "RELATED_TO", 300_000), 1, false));
    assert!(!table.upsert_inferred(&rel("a", "b", "SUPPORTS", 900_000), 2, false));
    assert_eq!(table.len(), 1);
    let e = table.get(0);
    assert_eq!(e.relation_type, "SUPPORTS");
    assert_eq!(e.confidence, 900_000);
    assert_eq!((e.created_at, e.updated_at), (1, 2));
    assert!(table.upsert_inferred(&rel("b", "a", "SUPPORTS", 900_000), 3, false));
    assert_eq!(table.len(), 2);
}

#[test]
fn human_edge_not_overwritten_when_asked_not_to() {
    let mut table = EdgeTable::new();
    table.add_edge(human("a", "b"));
    table.upsert_inferred(&rel("a", "b", "CONFLICTS_WITH", 500_000), 9, false);
    assert_eq!(table.get(0).relation_type, "RELATED_TO");
    table.upsert_inferred(&rel("a", "b", "CONFLICTS_WITH", 500_000), 9, true);
    assert_eq!(table.get(0).relation_type, "CONFLICTS_WITH");
    assert_eq!(table.get(0).origin, EdgeOrigin::Human);
    assert_eq!(table.len(), 1);
}

#[test]
fn forced_reextraction_keeps_human_edges() {
    let mut table = EdgeTable::new();
    table.add_edge(human("a", "b"));
    table.upsert_inferred(&rel("a", "c", "SUPPORTS", 1), 1, false);
    table.upsert_inferred(&rel("d", "a", "SUPPORTS", 1), 1, false);
    table.upsert_inferred(&rel("d", "e", "SUPPORTS", 1), 1, false);
    let removed = table.remove_inferred_touching(&vec!["a".to_string()]);
    assert_eq!(removed, 2);
    assert_eq!(table.len(), 2);
    assert_eq!(table.get(0).origin, EdgeOrigin::Human);
    assert_eq!((table.get(1).source_id.as_str(), table.get(1).target_id.as_str()), ("d", "e"));
}

#[test]
fn reextract_resets_only_settled_items() {
    let items = vec![
        item("s", Status::Settled, Some(vec![1; 4])),
        item("p", Status::EmbeddedPendingLink, Some(vec![1; 4])),
    ];
    let out = reset_items_for_reextract(&items, 7);
    assert_eq!(out[0].status, Status::ForceReextract);
    assert_eq!(out[0].embedding, Some(vec![1; 4]));
    assert_eq!(out[1].status, Status::EmbeddedPendingLink);
    let settled = settle_items(&out, 8);
    assert!(settled.iter().all(|i| i.status == Status::Settled));
}

#[test]
fn isolated_settled_items_are_found() {
    let items = vec![
        item("a", Status::Settled, Some(vec![1; 4])),
        item("b", Status::Settled, Some(vec![1; 4])),
        item("c", Status::Settled, None),
        item("d", Status::EmbeddedPendingLink, Some(vec![1; 4])),
        item("e", Status::Settled, Some(vec![1; 4])),
    ];
    let mut table = EdgeTable::new();
    table.add_edge(human("x", "b"));
    assert_eq!(isolated_items(&items, &table), vec![0, 4]);
}

#[test]
fn batches_settle_their_targets_once() {
    let targets = vec![
        item("a", Status::ForceReextract, Some(vec![1; 4])),
        item("b", Status::ForceReextract, Some(vec![1; 4])),
    ];
    let cand = |s: &str, t: &str| RelationCandidate {
        source_id: s.into(),
        source_summary: String::new(),
        target_id: t.into(),
        target_summary: String::new(),
    };
    let mut processed: Vec<String> = Vec::new();
    let first = first_touched_targets(&vec![cand("a", "x")], &targets, &mut processed);
    assert_eq!(first, vec!["a".to_string()]);
    let second = first_touched_targets(&vec![cand("x", "a"), cand("b", "a")], &targets, &mut processed);
    assert_eq!(second, vec!["b".to_string()]);
    assert_eq!(processed.len(), 3);
}

#[test]
fn embedding_text_joins_non_empty_parts() {
    let mut it = item("a", Status::Queued, None);
    it.summary = "S".into();
    assert_eq!(it.embedding_text(), "S");
    it.memo = "M".into();
    assert_eq!(it.embedding_text(), "S\nM");
    it.context = "C".into();
    assert_eq!(it.embedding_text(), "S\nC\nM");
}
