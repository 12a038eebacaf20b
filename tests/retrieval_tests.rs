use rag_api_server::retrieval::{
    budget_count, dedup_by_text, merge_retrieval, rank_by_score, Hit, RetrievalError,
    RetrievedChunk, SourceOutcome, SourceParams,
};

fn score(x: f64) -> u64 {
    (x * 1_000_000.0).round() as u64
}

fn hits(items: &[(&str, f64)]) -> SourceOutcome {
    SourceOutcome::Hits(
        items
            .iter()
            .map(|(t, s)| Hit { text: t.to_string(), score: score(*s) })
            .collect(),
    )
}

fn params(limit: u64, threshold: f64) -> SourceParams {
    SourceParams { limit, score_threshold: score(threshold) }
}

fn chunk(text: &str, s: u64) -> RetrievedChunk {
    RetrievedChunk { text: text.to_string(), score: s, source_id: 0, rank: 0 }
}

const BIG: usize = 1_000_000;

#[test]
fn two_collections_filtered_and_ordered() {
    let outcomes = vec![
        hits(&[("a1", 0.9), ("a2", 0.8), ("a3", 0.7), ("a4", 0.5), ("a5", 0.3)]),
        hits(&[("b1", 0.6), ("b2", 0.45), ("b3", 0.2)]),
    ];
    let ps = vec![params(5, 0.4), params(5, 0.4)];
    let merged = merge_retrieval(&outcomes, &ps, BIG).unwrap();
    let scores: Vec<u64> = merged.iter().map(|c| c.score).collect();
    let expected: Vec<u64> = [0.9, 0.8, 0.7, 0.6, 0.5, 0.45].iter().map(|x| score(*x)).collect();
    assert_eq!(scores, expected);
    let texts: Vec<&str> = merged.iter().map(|c| c.text.as_str()).collect();
    assert_eq!(texts, vec!["a1", "a2", "a3", "b1", "a4", "b2"]);
    assert_eq!(merged[3].source_id, 1);
    assert_eq!(merged[3].rank, 0);
    assert_eq!(merged[4].source_id, 0);
    assert_eq!(merged[4].rank, 3);
}

#[test]
fn below_threshold_never_merged() {
    let outcomes = vec![hits(&[("low", 0.39), ("high", 0.41)]), hits(&[("mid", 0.5)])];
    let ps = vec![params(10, 0.4), params(10, 0.6)];
    let merged = merge_retrieval(&outcomes, &ps, BIG).unwrap();
    assert_eq!(merged.len(), 1);
    assert_eq!(merged[0].text, "high");
}

#[test]
fn threshold_is_inclusive() {
    let outcomes = vec![hits(&[("edge", 0.4)])];
    let merged = merge_retrieval(&outcomes, &vec![params(1, 0.4)], BIG).unwrap();
    assert_eq!(merged.len(), 1);
}

#[test]
fn limit_caps_hits_per_source() {
    let outcomes = vec![hits(&[("x", 0.9), ("y", 0.8), ("z", 0.7)])];
    let merged = merge_retrieval(&outcomes, &vec![params(2, 0.0)], BIG).unwrap();
    let texts: Vec<&str> = merged.iter().map(|c| c.text.as_str()).collect();
    assert_eq!(texts, vec!["x", "y"]);
}

#[test]
fn overlapping_texts_merged_once() {
    let outcomes = vec![
        hits(&[("same", 0.7), ("only a", 0.6)]),
        hits(&[("same", 0.9), ("only b", 0.5)]),
    ];
    let ps = vec![params(5, 0.0), params(5, 0.0)];
    let merged = merge_retrieval(&outcomes, &ps, BIG).unwrap();
    let texts: Vec<&str> = merged.iter().map(|c| c.text.as_str()).collect();
    assert_eq!(texts, vec!["same", "only a", "only b"]);
    assert_eq!(merged[0].score, score(0.9));
    assert_eq!(merged[0].source_id, 1);
}

#[test]
fn keyword_timeout_uses_vector_results() {
    let outcomes = vec![hits(&[("v1", 0.8)]), hits(&[("v2", 0.7)]), SourceOutcome::Failed];
    let ps = vec![params(5, 0.4), params(5, 0.4), params(u64::MAX, 0.0)];
    let merged = merge_retrieval(&outcomes, &ps, BIG).unwrap();
    let texts: Vec<&str> = merged.iter().map(|c| c.text.as_str()).collect();
    assert_eq!(texts, vec!["v1", "v2"]);
}

#[test]
fn all_sources_failing_is_an_error() {
    let outcomes = vec![SourceOutcome::Failed, SourceOutcome::Failed, SourceOutcome::Failed];
    let ps = vec![params(5, 0.4), params(5, 0.4), params(5, 0.0)];
    assert_eq!(
        merge_retrieval(&outcomes, &ps, BIG).unwrap_err(),
        RetrievalError::AllSourcesFailed
    );
}

#[test]
fn one_answering_source_with_no_hits_is_not_an_error() {
    let outcomes = vec![SourceOutcome::Failed, SourceOutcome::Hits(vec![])];
    let ps = vec![params(5, 0.4), params(5, 0.4)];
    assert!(merge_retrieval(&outcomes, &ps, BIG).unwrap().is_empty());
}

#[test]
fn no_sources_gives_no_passages() {
    assert!(merge_retrieval(&vec![], &vec![], BIG).unwrap().is_empty());
}

#[test]
fn budget_drops_lowest_scoring_first() {
    let outcomes = vec![hits(&[("aaaa", 0.9), ("bbbb", 0.8), ("cc", 0.7)])];
    let merged = merge_retrieval(&outcomes, &vec![params(5, 0.0)], 9).unwrap();
    let texts: Vec<&str> = merged.iter().map(|c| c.text.as_str()).collect();
    assert_eq!(texts, vec!["aaaa", "bbbb"]);
    let none = merge_retrieval(&outcomes, &vec![params(5, 0.0)], 3).unwrap();
    assert!(none.is_empty());
    let exact = merge_retrieval(&outcomes, &vec![params(5, 0.0)], 10).unwrap();
    assert_eq!(exact.len(), 3);
}

#[test]
fn budget_counts_characters() {
    let v = vec![chunk("héllo", 3), chunk("ab", 2)];
    assert_eq!(budget_count(&v, 5), 1);
    assert_eq!(budget_count(&v, 7), 2);
    assert_eq!(budget_count(&v, 0), 0);
}

#[test]
fn ranking_is_stable_on_equal_scores() {
    let v = vec![chunk("p", 1), chunk("q", 5), chunk("r", 5), chunk("s", 3)];
    let r = rank_by_score(v);
    let texts: Vec<&str> = r.iter().map(|c| c.text.as_str()).collect();
    assert_eq!(texts, vec!["q", "r", "s", "p"]);
}

#[test]
fn dedup_keeps_first_occurrence() {
    let v = vec![chunk("a", 9), chunk("b", 8), chunk("a", 7)];
    let d = dedup_by_text(&v);
    assert_eq!(d.len(), 2);
    assert_eq!(d[0].score, 9);
    assert_eq!(d[1].text, "b");
}
