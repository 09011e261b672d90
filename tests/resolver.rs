use stats_sync::error::SyncError;
use stats_sync::resolver::{
    backfill_pairs, batch_at, merge_results, missing_ids, BatchResolver, ResolveAction,
    ResolveStage, MAX_BATCH_ENTITY_COUNT,
};

fn strings(v: &[&str]) -> Vec<String> {
    v.iter().map(|s| s.to_string()).collect()
}

fn numbered(prefix: &str, n: usize) -> Vec<String> {
    (0..n).map(|i| format!("{}{}", prefix, i)).collect()
}

#[test]
fn all_cached_resolves_without_fetching() {
    let ids = strings(&["a", "b", "c"]);
    let (mut r, first) = BatchResolver::new(ids.clone());
    match first {
        ResolveAction::GetMany(keys) => assert_eq!(keys, ids),
        _ => panic!("expected a cache read first"),
    }
    let cached = vec![Some("A".to_string()), Some("B".to_string()), Some("C".to_string())];
    match r.on_cache_read(cached) {
        ResolveAction::Finished(v) => assert_eq!(v, strings(&["A", "B", "C"])),
        _ => panic!("expected the result at once"),
    }
    assert_eq!(r.stage(), ResolveStage::Done);
}

#[test]
fn partial_hits_keep_input_order() {
    let ids = strings(&["a", "b", "c", "d"]);
    let (mut r, _) = BatchResolver::new(ids);
    let cached = vec![None, Some("B".to_string()), None, Some("D".to_string())];
    let batch = match r.on_cache_read(cached) {
        ResolveAction::FetchBatch(b) => b,
        _ => panic!("expected a fetch"),
    };
    assert_eq!(batch, strings(&["a", "c"]));
    match r.on_batch_fetched(strings(&["A", "C"])) {
        ResolveAction::SetMany(pairs) => assert_eq!(
            pairs,
            vec![
                ("a".to_string(), "A".to_string()),
                ("c".to_string(), "C".to_string())
            ]
        ),
        _ => panic!("expected a cache write"),
    }
    assert_eq!(r.stage(), ResolveStage::AwaitingStore);
    match r.on_cache_written() {
        ResolveAction::Finished(v) => assert_eq!(v, strings(&["A", "B", "C", "D"])),
        _ => panic!("expected the result"),
    }
}

#[test]
fn one_hundred_twenty_misses_take_three_batches() {
    let ids = numbered("id", 120);
    let (mut r, _) = BatchResolver::new(ids.clone());
    let mut action = r.on_cache_read(vec![None; 120]);
    let mut fetches: Vec<Vec<String>> = Vec::new();
    let mut writes: Vec<Vec<(String, String)>> = Vec::new();
    let result = loop {
        action = match action {
            ResolveAction::FetchBatch(b) => {
                assert!(b.len() <= MAX_BATCH_ENTITY_COUNT);
                let values: Vec<String> = b.iter().map(|id| format!("v-{}", id)).collect();
                fetches.push(b);
                r.on_batch_fetched(values)
            }
            ResolveAction::SetMany(pairs) => {
                writes.push(pairs);
                r.on_cache_written()
            }
            ResolveAction::Finished(v) => break v,
            _ => panic!("unexpected action"),
        };
    };
    assert_eq!(fetches.len(), 3);
    assert_eq!(
        fetches.iter().map(|b| b.len()).collect::<Vec<_>>(),
        vec![50, 50, 20]
    );
    assert_eq!(fetches.concat(), ids);
    // every fetched value was written back before the result came out
    assert_eq!(writes.len(), 3);
    assert_eq!(writes.iter().map(|w| w.len()).sum::<usize>(), 120);
    assert_eq!(writes[2][19], ("id119".to_string(), "v-id119".to_string()));
    let expected: Vec<String> = ids.iter().map(|id| format!("v-{}", id)).collect();
    assert_eq!(result, expected);
}

#[test]
fn empty_id_list_resolves_to_empty() {
    let (mut r, _) = BatchResolver::new(Vec::new());
    match r.on_cache_read(Vec::new()) {
        ResolveAction::Finished(v) => assert!(v.is_empty()),
        _ => panic!("expected an empty result"),
    }
}

#[test]
fn cache_reply_of_wrong_length_aborts() {
    let (mut r, _) = BatchResolver::new(strings(&["a", "b"]));
    match r.on_cache_read(vec![None]) {
        ResolveAction::Abort(e) => assert_eq!(e, SyncError::CacheUnavailable),
        _ => panic!("expected an abort"),
    }
    assert_eq!(r.stage(), ResolveStage::Done);
}

#[test]
fn fetch_reply_of_wrong_length_aborts() {
    let (mut r, _) = BatchResolver::new(strings(&["a", "b"]));
    let _ = r.on_cache_read(vec![None, None]);
    match r.on_batch_fetched(strings(&["A"])) {
        ResolveAction::Abort(e) => assert_eq!(e, SyncError::UpstreamResponse),
        _ => panic!("expected an abort"),
    }
}

#[test]
fn helpers_compute_misses_batches_and_merge() {
    let ids = strings(&["a", "b", "c"]);
    let cached = vec![None, Some("B".to_string()), None];
    assert_eq!(missing_ids(&ids, &cached), strings(&["a", "c"]));
    let merged = merge_results(&cached, &strings(&["A", "C"]));
    assert_eq!(merged, strings(&["A", "B", "C"]));
    let many = numbered("x", 51);
    assert_eq!(batch_at(&many, 1), strings(&["x50"]));
    assert_eq!(batch_at(&many, 0).len(), 50);
    assert_eq!(
        backfill_pairs(&strings(&["k"]), &strings(&["v"])),
        vec![("k".to_string(), "v".to_string())]
    );
}
