use chess_pos_analyzer::error::ErrorCode;
use chess_pos_analyzer::fen::normalize_fen;

#[test]
fn drops_halfmove_and_fullmove() {
    let fen = "rnbqkbnr/pppppppp/8/8/8/8/PPPPPPPP/RNBQKBNR w KQkq - 0 1";
    let normalized = normalize_fen(fen).unwrap();
    assert_eq!(
        normalized,
        "rnbqkbnr/pppppppp/8/8/8/8/PPPPPPPP/RNBQKBNR w KQkq -"
    );
}

#[test]
fn accepts_already_truncated_fen() {
    let fen = "rnbqkbnr/pppppppp/8/8/8/8/PPPPPPPP/RNBQKBNR w KQkq -";
    let normalized = normalize_fen(fen).unwrap();
    assert_eq!(
        normalized,
        "rnbqkbnr/pppppppp/8/8/8/8/PPPPPPPP/RNBQKBNR w KQkq -"
    );
}

#[test]
fn rejects_too_few_fields() {
    let fen = "rnbqkbnr/pppppppp w";
    let err = normalize_fen(fen).unwrap_err();
    assert_eq!(err.code(), ErrorCode::InvalidFen);
}

#[test]
fn rejects_empty() {
    let err = normalize_fen("").unwrap_err();
    assert_eq!(err.code(), ErrorCode::InvalidFen);
}

#[test]
fn two_positions_differing_only_in_clocks_normalize_equal() {
    let a = "rnbqkbnr/pppppppp/8/8/8/8/PPPPPPPP/RNBQKBNR w KQkq - 0 1";
    let b = "rnbqkbnr/pppppppp/8/8/8/8/PPPPPPPP/RNBQKBNR w KQkq - 5 12";
    assert_eq!(normalize_fen(a).unwrap(), normalize_fen(b).unwrap());
}

#[test]
fn normalizing_twice_is_normalizing_once() {
    let once = normalize_fen("  8/8/8/8/8/8/8/k6K\tw  -\n- 3 40 extra").unwrap();
    assert_eq!(once, "8/8/8/8/8/8/8/k6K w - -");
    assert_eq!(normalize_fen(&once).unwrap(), once);
}

#[test]
fn three_fields_are_too_few() {
    let err = normalize_fen("8/8/8/8/8/8/8/k6K w -").unwrap_err();
    assert_eq!(err.message(), "invalid FEN: FEN must contain at least 4 fields, got 3");
}
