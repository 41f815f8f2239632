use chess_pos_analyzer::cache::{
    AnalysisCache, AnalysisLine, AnalysisResult, CacheKey, Score, ScoreKind, SCHEMA_VERSION,
};
use chess_pos_analyzer::pv_explain::MaterialSwing;

fn sample_result(fen: &str, depth: u32, multipv: u32) -> AnalysisResult {
    AnalysisResult {
        schema_version: SCHEMA_VERSION.to_string(),
        fen: fen.to_string(),
        depth,
        multipv,
        lines: vec![AnalysisLine {
            rank: 1,
            score: Score {
                kind: ScoreKind::Cp,
                cp: Some(31),
                mate_in: None,
            },
            pv_uci: vec!["e2e4".to_string()],
            pv_san: vec![],
            captures: vec![],
            material_swing: MaterialSwing::default(),
        }],
    }
}

#[test]
fn put_then_get_returns_same_entry() {
    let mut cache = AnalysisCache::new(4);
    let fen = "rnbqkbnr/pppppppp/8/8/8/8/PPPPPPPP/RNBQKBNR w KQkq - 0 1";
    let key = CacheKey::new(fen, 20, 6).unwrap();
    let value = sample_result(fen, 20, 6);
    cache.put(key.clone(), value.clone());
    assert_eq!(cache.get(&key), Some(value));
}

#[test]
fn miss_returns_none() {
    let mut cache = AnalysisCache::new(4);
    let key = CacheKey::new(
        "rnbqkbnr/pppppppp/8/8/8/8/PPPPPPPP/RNBQKBNR w KQkq - 0 1",
        20,
        6,
    )
    .unwrap();
    assert!(cache.get(&key).is_none());
}

#[test]
fn fen_clocks_dont_affect_key() {
    let a = "rnbqkbnr/pppppppp/8/8/8/8/PPPPPPPP/RNBQKBNR w KQkq - 0 1";
    let b = "rnbqkbnr/pppppppp/8/8/8/8/PPPPPPPP/RNBQKBNR w KQkq - 9 18";
    let ka = CacheKey::new(a, 20, 6).unwrap();
    let kb = CacheKey::new(b, 20, 6).unwrap();
    assert_eq!(ka, kb);
}

#[test]
fn depth_and_multipv_part_of_key() {
    let fen = "rnbqkbnr/pppppppp/8/8/8/8/PPPPPPPP/RNBQKBNR w KQkq - 0 1";
    let k1 = CacheKey::new(fen, 20, 6).unwrap();
    let k2 = CacheKey::new(fen, 21, 6).unwrap();
    let k3 = CacheKey::new(fen, 20, 3).unwrap();
    assert_ne!(k1, k2);
    assert_ne!(k1, k3);
}

#[test]
fn lru_eviction_drops_least_recently_used() {
    let mut cache = AnalysisCache::new(2);
    let fens = [
        "rnbqkbnr/pppppppp/8/8/8/8/PPPPPPPP/RNBQKBNR w KQkq - 0 1",
        "rnbqkbnr/pppppppp/8/8/8/8/PPPPPPPP/RNBQKBNR b KQkq - 0 1",
        "rnbqkbnr/pppppppp/8/8/8/8/PPPPPPPP/RNBQKBNR w KQ - 0 1",
    ];
    let keys: Vec<CacheKey> = fens
        .iter()
        .map(|f| CacheKey::new(f, 20, 6).unwrap())
        .collect();
    cache.put(keys[0].clone(), sample_result(fens[0], 20, 6));
    cache.put(keys[1].clone(), sample_result(fens[1], 20, 6));
    // Touch keys[0] so it becomes MRU
    let _ = cache.get(&keys[0]);
    cache.put(keys[2].clone(), sample_result(fens[2], 20, 6));
    assert!(cache.get(&keys[0]).is_some());
    assert!(cache.get(&keys[1]).is_none()); // evicted
    assert!(cache.get(&keys[2]).is_some());
}

#[test]
fn invalid_fen_rejected_in_key_construction() {
    let err = CacheKey::new("garbage", 20, 6).unwrap_err();
    assert_eq!(err.code(), chess_pos_analyzer::error::ErrorCode::InvalidFen);
}

#[test]
fn zero_capacity_clamped_to_one() {
    let cache = AnalysisCache::new(0);
    assert_eq!(cache.capacity(), 1);
}

#[test]
fn clear_empties_cache() {
    let mut cache = AnalysisCache::new(4);
    let fen = "rnbqkbnr/pppppppp/8/8/8/8/PPPPPPPP/RNBQKBNR w KQkq - 0 1";
    let key = CacheKey::new(fen, 20, 6).unwrap();
    cache.put(key, sample_result(fen, 20, 6));
    assert_eq!(cache.len(), 1);
    cache.clear();
    assert!(cache.is_empty());
}

#[test]
fn storing_again_replaces_and_evicts_nothing() {
    let mut cache = AnalysisCache::new(2);
    let fen = "8/8/8/8/8/8/8/k6K w - - 0 1";
    let a = CacheKey::new(fen, 1, 1).unwrap();
    let b = CacheKey::new(fen, 2, 1).unwrap();
    cache.put(a.clone(), sample_result(fen, 1, 1));
    cache.put(b.clone(), sample_result(fen, 2, 1));
    cache.put(a.clone(), sample_result(fen, 9, 9));
    assert_eq!(cache.len(), 2);
    assert_eq!(cache.get(&a), Some(sample_result(fen, 9, 9)));
    assert_eq!(cache.get(&b), Some(sample_result(fen, 2, 1)));
}

#[test]
fn a_full_cache_keeps_its_size() {
    let mut cache = AnalysisCache::new(3);
    let fen = "8/8/8/8/8/8/8/k6K w - - 0 1";
    for depth in 1..20u32 {
        let key = CacheKey::new(fen, depth, 1).unwrap();
        cache.put(key, sample_result(fen, depth, 1));
        assert!(cache.len() <= 3);
    }
    for depth in 17..20u32 {
        let key = CacheKey::new(fen, depth, 1).unwrap();
        assert_eq!(cache.get(&key), Some(sample_result(fen, depth, 1)));
    }
    let gone = CacheKey::new(fen, 16, 1).unwrap();
    assert_eq!(cache.get(&gone), None);
    assert_eq!(cache.capacity(), 3);
    assert!(!cache.is_empty());
}

#[test]
fn key_error_counts_the_fields() {
    let err = CacheKey::new("rnbqkbnr/pppppppp w", 20, 6).unwrap_err();
    assert_eq!(err.message(), "invalid FEN: FEN must contain at least 4 fields, got 2");
}
