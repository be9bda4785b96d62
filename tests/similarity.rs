use moonshine_core::{
    apply_relations, build_candidates, candidate_batches, find_similar_in_batch,
    find_similar_mashes, merge_similar_pairs, missing_summary_ids, settle_items,
    validate_relations, EdgeOrigin, EdgeTable, Item, ProposedRelation, ScoredItem, SimilarPair,
    Status,
};

fn scored(id: &str, score: i64) -> ScoredItem {
    ScoredItem { id: id.to_string(), score }
}

fn pair(s: &str, t: &str, sim: i64) -> SimilarPair {
    SimilarPair { source_id: s.to_string(), target_id: t.to_string(), similarity: sim }
}

fn pending(id: &str, summary: &str) -> Item {
    Item {
        id: id.to_string(),
        summary: summary.to_string(),
        context: String::new(),
        memo: String::new(),
        status: Status::EmbeddedPendingLink,
        embedding: Some(vec![0, 0, 128, 63]),
        updated_at: 1,
    }
}

#[test]
fn corpus_search_excludes_filters_sorts_and_limits() {
    let corpus = vec![
        scored("a", 400_000),
        scored("self", 990_000),
        scored("b", 900_000),
        scored("c", 299_999),
        scored("d", 400_000),
        scored("e", 700_000),
    ];
    let r = find_similar_mashes("self", &corpus, 3, 300_000);
    let got: Vec<(&str, i64)> = r.iter().map(|p| (p.target_id.as_str(), p.similarity)).collect();
    assert_eq!(got, vec![("b", 900_000), ("e", 700_000), ("a", 400_000)]);
    assert!(r.iter().all(|p| p.source_id == "self"));
}

#[test]
fn corpus_search_keeps_corpus_order_on_ties() {
    let corpus = vec![scored("x", 500_000), scored("y", 500_000), scored("z", 500_000)];
    let r = find_similar_mashes("", &corpus, 10, 0);
    let ids: Vec<&str> = r.iter().map(|p| p.target_id.as_str()).collect();
    assert_eq!(ids, vec!["x", "y", "z"]);
}

#[test]
fn corpus_search_properties_hold() {
    let corpus: Vec<ScoredItem> = (0..40)
        .map(|i| scored(&format!("id{}", i % 7), ((i * 37) % 101) as i64 * 10_000))
        .collect();
    let r = find_similar_mashes("id3", &corpus, 5, 300_000);
    assert!(r.len() <= 5);
    for p in &r {
        assert_ne!(p.target_id, "id3");
        assert!(p.similarity >= 300_000);
    }
    for w in r.windows(2) {
        assert!(w[0].similarity >= w[1].similarity);
    }
}

#[test]
fn corpus_search_empty_and_zero_limit() {
    assert!(find_similar_mashes("a", &vec![], 5, 0).is_empty());
    assert!(find_similar_mashes("a", &vec![scored("b", 900_000)], 0, 0).is_empty());
}

fn matrix(n: usize, entries: &[(usize, usize, i64)]) -> Vec<Vec<i64>> {
    let mut m = vec![vec![0i64; n]; n];
    for &(a, b, s) in entries {
        m[a][b] = s;
        m[b][a] = s;
    }
    m
}

#[test]
fn batch_pairs_have_no_duplicates() {
    let ids: Vec<String> = vec!["a".into(), "b".into(), "c".into()];
    let scores = matrix(3, &[(0, 1, 900_000), (0, 2, 800_000), (1, 2, 700_000)]);
    let r = find_similar_in_batch(&ids, &scores, 300_000, 5);
    assert_eq!(r.len(), 3);
    for i in 0..r.len() {
        for j in (i + 1)..r.len() {
            let same = r[i].source_id == r[j].source_id && r[i].target_id == r[j].target_id;
            let swapped = r[i].source_id == r[j].target_id && r[i].target_id == r[j].source_id;
            assert!(!same && !swapped);
        }
    }
    assert!(r.iter().any(|p| p.source_id == "a" && p.target_id == "b" && p.similarity == 900_000));
}

#[test]
fn batch_each_item_keeps_its_own_best() {
    // a's best is b; c's best is a; b's best is a: pairs a-b and a-c.
    let ids: Vec<String> = vec!["a".into(), "b".into(), "c".into()];
    let scores = matrix(3, &[(0, 1, 900_000), (0, 2, 800_000), (1, 2, 700_000)]);
    let r = find_similar_in_batch(&ids, &scores, 300_000, 1);
    let mut got: Vec<(String, String)> =
        r.iter().map(|p| (p.source_id.clone(), p.target_id.clone())).collect();
    got.sort();
    assert_eq!(got, vec![("a".to_string(), "b".to_string()), ("a".to_string(), "c".to_string())]);
}

#[test]
fn related_pair_becomes_one_ai_edge_and_both_settle() {
    let items = vec![
        pending("A", "need to decide on storage engine"),
        pending("B", "chose an embedded SQL store"),
    ];
    let ids: Vec<String> = items.iter().map(|i| i.id.clone()).collect();
    let scores = matrix(2, &[(0, 1, 920_000)]);
    let batch_pairs = find_similar_in_batch(&ids, &scores, 300_000, 5);
    let pairs = merge_similar_pairs(&vec![], &batch_pairs);
    assert_eq!(pairs.len(), 1);
    let known: Vec<(String, String)> =
        items.iter().map(|i| (i.id.clone(), i.summary.clone())).collect();
    assert!(missing_summary_ids(&pairs, &known).is_empty());
    let candidates = build_candidates(&pairs, &known);
    assert_eq!(candidates.len(), 1);
    assert_eq!(candidates[0].source_summary, "need to decide on storage engine");
    let batches = candidate_batches(&candidates);
    assert_eq!(batches.len(), 1);
    let answer = vec![ProposedRelation {
        source_id: "A".into(),
        target_id: "B".into(),
        relation: Some("SUPPORTS".into()),
        confidence: 800_000,
    }];
    let accepted = validate_relations(&batches[0], &answer);
    assert_eq!(accepted.len(), 1);
    let mut table = EdgeTable::new();
    assert_eq!(apply_relations(&mut table, &accepted, 10, true), 1);
    assert_eq!(table.len(), 1);
    let e = table.get(0);
    assert_eq!((e.source_id.as_str(), e.target_id.as_str()), ("A", "B"));
    assert_eq!(e.relation_type, "SUPPORTS");
    assert_eq!(e.origin, EdgeOrigin::Ai);
    assert_eq!(e.confidence, 800_000);
    let settled = settle_items(&items, 10);
    assert!(settled.iter().all(|i| i.status == Status::Settled && i.embedding.is_some()));
}

#[test]
fn dissimilar_pair_gives_nothing_but_both_settle() {
    let items = vec![pending("A", "one"), pending("B", "two")];
    let ids: Vec<String> = items.iter().map(|i| i.id.clone()).collect();
    let scores = matrix(2, &[(0, 1, 50_000)]);
    let batch_pairs = find_similar_in_batch(&ids, &scores, 300_000, 5);
    let corpus_pairs = find_similar_mashes("A", &vec![], 5, 300_000);
    let pairs = merge_similar_pairs(&corpus_pairs, &batch_pairs);
    assert!(pairs.is_empty());
    let known: Vec<(String, String)> =
        items.iter().map(|i| (i.id.clone(), i.summary.clone())).collect();
    let candidates = build_candidates(&pairs, &known);
    assert!(candidates.is_empty());
    assert!(candidate_batches(&candidates).is_empty());
    let table = EdgeTable::new();
    assert_eq!(table.len(), 0);
    let settled = settle_items(&items, 10);
    assert!(settled.iter().all(|i| i.status == Status::Settled));
}

#[test]
fn merge_drops_reversed_and_repeated_pairs() {
    let first = vec![pair("a", "b", 900_000), pair("a", "c", 500_000)];
    let second = vec![pair("b", "a", 900_000), pair("c", "d", 400_000), pair("a", "c", 1)];
    let r = merge_similar_pairs(&first, &second);
    let got: Vec<(&str, &str, i64)> =
        r.iter().map(|p| (p.source_id.as_str(), p.target_id.as_str(), p.similarity)).collect();
    assert_eq!(got, vec![("a", "b", 900_000), ("a", "c", 500_000), ("c", "d", 400_000)]);
}

#[test]
fn missing_ids_are_listed_once_and_unknown_pairs_dropped() {
    let pairs = vec![pair("a", "x", 1), pair("x", "y", 1), pair("a", "b", 1)];
    let known = vec![("a".to_string(), "sa".to_string()), ("b".to_string(), "sb".to_string())];
    let mut missing = missing_summary_ids(&pairs, &known);
    missing.sort();
    assert_eq!(missing, vec!["x".to_string(), "y".to_string()]);
    let cands = build_candidates(&pairs, &known);
    assert_eq!(cands.len(), 1);
    assert_eq!(cands[0].source_id, "a");
    assert_eq!(cands[0].target_summary, "sb");
}

#[test]
fn batches_of_five() {
    let pairs: Vec<SimilarPair> = (0..12).map(|i| pair(&format!("s{}", i), "t", 1)).collect();
    let mut known: Vec<(String, String)> =
        (0..12).map(|i| (format!("s{}", i), format!("summary {}", i))).collect();
    known.push(("t".into(), "target".into()));
    let cands = build_candidates(&pairs, &known);
    let batches = candidate_batches(&cands);
    let lens: Vec<usize> = batches.iter().map(|b| b.len()).collect();
    assert_eq!(lens, vec![5, 5, 2]);
    assert_eq!(batches[2][1].source_id, "s11");
}

#[test]
fn validation_filters_bad_proposals() {
    let known = vec![
        ("a".to_string(), "sa".to_string()),
        ("b".to_string(), "sb".to_string()),
        ("z".to_string(), "sz".to_string()),
    ];
    let batch = build_candidates(&vec![pair("a", "b", 1)], &known);
    let p = |s: &str, t: &str, r: Option<&str>, c: i64| ProposedRelation {
        source_id: s.into(),
        target_id: t.into(),
        relation: r.map(|x| x.to_string()),
        confidence: c,
    };
    let proposed = vec![
        p("a", "b", Some("RELATED_TO"), 500_000),
        p("a", "b", None, 500_000),
        p("a", "b", Some("FRIENDS_WITH"), 500_000),
        p("a", "b", Some("SUPPORTS"), 0),
        p("a", "z", Some("SUPPORTS"), 500_000),
        p("b", "a", Some("CONFLICTS_WITH"), 1),
        p("a", "b", Some("SUPPORTS"), 1_000_001),
        p("a", "b", Some("SUPPORTS"), 2_000_000),
        p("b", "a", Some("SUPPORTS"), 1_000_000),
    ];
    let r = validate_relations(&batch, &proposed);
    let got: Vec<(&str, &str, &str)> =
        r.iter().map(|x| (x.source_id.as_str(), x.target_id.as_str(), x.relation.as_str())).collect();
    assert_eq!(
        got,
        vec![("a", "b", "RELATED_TO"), ("b", "a", "CONFLICTS_WITH"), ("b", "a", "SUPPORTS")]
    );
}
